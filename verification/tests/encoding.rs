use fhir_model::element::{Element, NamedFrom, Value, ValueType};
use fhir_model::extension::Extension;
use fhir_model::json::Json;
use fhir_model::primitive::Primitive;
use fhir_model::resource::Resource;
use fhir_model::uri::Uri;

fn s(text: &str) -> String {
    text.to_string()
}

fn obj(pairs: Vec<(&str, Json)>) -> Json {
    Json::Object(pairs.into_iter().map(|(k, v)| (s(k), v)).collect())
}

fn make_test_elt() -> Element {
    let e1 = Element::with("foo", false).id("quux");
    let e2 = Element::with("bar", false);
    let e3 = Element::with("baz", 23u32);
    let e_second = Element::with("second", vec![e3]);
    let e_list = Element::with(
        "list",
        vec![Value::from(true), Value::from(true).id("abc123")],
    );
    Element::with("top", vec![e1, e2, e_second, e_list])
}

#[test]
fn test_compound_elt() {
    let expected = obj(vec![
        ("foo", Json::Boolean(false)),
        ("_foo", obj(vec![("id", Json::Str(s("quux")))])),
        ("bar", Json::Boolean(false)),
        ("second", obj(vec![("baz", Json::U64(23))])),
        ("list", Json::Array(vec![Json::Boolean(true), Json::Boolean(true)])),
        (
            "_list",
            Json::Array(vec![Json::Null, obj(vec![("id", Json::Str(s("abc123")))])]),
        ),
    ]);
    assert_eq!(expected, make_test_elt().value.to_json());
}

#[test]
fn new_element_test_compound_elt() {
    let expected = obj(vec![
        ("foo", Json::Boolean(false)),
        ("_foo", obj(vec![("id", Json::Str(s("quux")))])),
        ("bar", Json::Boolean(false)),
        ("second", obj(vec![("baz", Json::U64(23))])),
        ("list", Json::Array(vec![Json::Boolean(true), Json::Boolean(true)])),
        (
            "_list",
            Json::Array(vec![Json::Null, obj(vec![("id", Json::Str(s("abc123")))])]),
        ),
    ]);
    assert_eq!(expected, make_test_elt().value.to_json());
}

#[test]
fn test_bool_value() {
    let v = Value::from(false);
    assert_eq!(Json::Boolean(false), v.to_json());
}

#[test]
fn new_element_test_bool_value() {
    let v = Value::from(false);
    assert_eq!(Json::Boolean(false), v.to_json());
}

#[test]
fn value_keys_without_metadata() {
    let v = Value::from(true);
    let keys = v.keys("flag");
    assert_eq!(keys, vec![(s("flag"), Json::Boolean(true))]);
}

#[test]
fn value_keys_with_id_metadata() {
    let v = Value::from(true).id("xyz");
    let keys = v.keys("flag");
    assert_eq!(
        keys,
        vec![
            (s("flag"), Json::Boolean(true)),
            (s("_flag"), obj(vec![("id", Json::Str(s("xyz")))])),
        ]
    );
}

#[test]
fn shadow_list_alignment() {
    // only the second member carries an identifier: the shadow array keeps
    // the positions aligned, with a null for the member without metadata
    let v = Value {
        value: ValueType::List(vec![Value::from(true), Value::from(true).id("abc123")]),
        id: None,
        extension: Vec::new(),
    };
    let keys = v.keys("list");
    assert_eq!(
        keys,
        vec![
            (
                s("list"),
                Json::Array(vec![Json::Boolean(true), Json::Boolean(true)]),
            ),
            (
                s("_list"),
                Json::Array(vec![Json::Null, obj(vec![("id", Json::Str(s("abc123")))])]),
            ),
        ]
    );
}

#[test]
fn shadow_list_omitted_without_metadata() {
    let v = Value {
        value: ValueType::List(vec![Value::from(true), Value::from(true)]),
        id: None,
        extension: Vec::new(),
    };
    let keys = v.keys("list");
    assert_eq!(
        keys,
        vec![(
            s("list"),
            Json::Array(vec![Json::Boolean(true), Json::Boolean(true)]),
        )]
    );
}

#[test]
fn test_atomic_extension() {
    let e = Extension::builder()
        .uri(Uri::parse("http://example.org/is_happy").unwrap())
        .id("ext_id1")
        .atom(Primitive::from(false))
        .and_then(|e| e.build())
        .ok()
        .unwrap();
    let expected = obj(vec![
        ("id", Json::Str(s("ext_id1"))),
        ("url", Json::Str(s("http://example.org/is_happy"))),
        ("valueBoolean", Json::Boolean(false)),
    ]);
    assert_eq!(expected, e.to_json());
}

#[test]
fn test_composite_extension() {
    let elt = Element::with(
        "Coding",
        vec![
            Element::with("system", Uri::parse("http://example.org/mycode").unwrap()),
            Element::with("code", "abc123"),
            Element::with("display", "Alpha Bravo Charlie 123"),
        ],
    );
    let e = Extension::builder()
        .uri(Uri::parse("http://example.org/is_happy").unwrap())
        .composite(elt)
        .and_then(|e| e.build())
        .ok()
        .unwrap();
    let expected = obj(vec![
        ("url", Json::Str(s("http://example.org/is_happy"))),
        (
            "valueCoding",
            obj(vec![
                ("system", Json::Str(s("http://example.org/mycode"))),
                ("code", Json::Str(s("abc123"))),
                ("display", Json::Str(s("Alpha Bravo Charlie 123"))),
            ]),
        ),
    ]);
    assert_eq!(expected, e.to_json());
}

#[test]
fn test_extension_with_subextensions() {
    let e1 = Extension::builder()
        .uri(Uri::parse("http://example.org/is_happy").unwrap())
        .atom(Primitive::from(false))
        .and_then(|e| e.build())
        .ok()
        .unwrap();
    let e2 = Extension::builder()
        .uri(Uri::parse("http://example.org/myalpha").unwrap())
        .atom(Primitive::from("abc"))
        .and_then(|e| e.build())
        .ok()
        .unwrap();
    let e = Extension::builder()
        .uri(Uri::parse("http://example.org/happy_alpha").unwrap())
        .extensions(vec![e1, e2])
        .and_then(|e| e.build())
        .ok()
        .unwrap();
    let expected = obj(vec![
        ("url", Json::Str(s("http://example.org/happy_alpha"))),
        (
            "extension",
            Json::Array(vec![
                obj(vec![
                    ("url", Json::Str(s("http://example.org/is_happy"))),
                    ("valueBoolean", Json::Boolean(false)),
                ]),
                obj(vec![
                    ("url", Json::Str(s("http://example.org/myalpha"))),
                    ("valueString", Json::Str(s("abc"))),
                ]),
            ]),
        ),
    ]);
    assert_eq!(expected, e.to_json());
}

#[test]
fn test_resource_to_json() {
    let r = Resource::new("foo")
        .add_elt(Element::with("bar", false))
        .add_elt(Element::with("baz", true));
    let r2 = Resource::new_with_elts(
        "foo",
        vec![Element::with("bar", false), Element::with("baz", true)],
    );

    let j = obj(vec![
        ("resourceType", Json::Str(s("foo"))),
        ("bar", Json::Boolean(false)),
        ("baz", Json::Boolean(true)),
    ]);

    assert_eq!(j, r.to_json());
    assert_eq!(j, r2.to_json());
}

#[test]
fn test_resource_with_ext() {
    let e = Extension::builder()
        .uri(Uri::parse("http://example.org/is_happy").unwrap())
        .atom(Primitive::from(false))
        .and_then(|e| e.build())
        .ok()
        .unwrap();
    let r = Resource::new("foo")
        .add_elt(Element::with("bar", false))
        .add_elt(Element::with("baz", true))
        .add_ext(e);

    let j = obj(vec![
        ("resourceType", Json::Str(s("foo"))),
        ("bar", Json::Boolean(false)),
        ("baz", Json::Boolean(true)),
        (
            "extension",
            Json::Array(vec![obj(vec![
                ("url", Json::Str(s("http://example.org/is_happy"))),
                ("valueBoolean", Json::Boolean(false)),
            ])]),
        ),
    ]);

    assert_eq!(j, r.to_json());
}

#[test]
fn resource_duplicate_element_names_last_write_wins() {
    let r = Resource::new("foo")
        .add_elt(Element::with("bar", false))
        .add_elt(Element::with("bar", true));
    let j = obj(vec![
        ("resourceType", Json::Str(s("foo"))),
        ("bar", Json::Boolean(true)),
    ]);
    assert_eq!(j, r.to_json());
}

#[test]
fn element_id_attaches_to_value() {
    let e = Element::with("foo", false).id("quux");
    let keys = e.value.keys(&e.name);
    assert_eq!(
        keys,
        vec![
            (s("foo"), Json::Boolean(false)),
            (s("_foo"), obj(vec![("id", Json::Str(s("quux")))])),
        ]
    );
}
