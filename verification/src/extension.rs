//! Extensions: URI-keyed side-channel values, recursively nestable, built
//! through a validating builder that enforces exactly one payload.

use vstd::prelude::*;
use crate::element::{elt_model, value_json, Element, ElementV, ValueV};
use crate::json::{entry_models, insert_entry, obj_insert, Json, JsonVal};
use crate::primitive::{prim_ext_name, prim_json, prim_valid_ext, Primitive, PrimV};
use crate::uri::Uri;

verus! {

/// The payload of an extension: an atom, a composite element, or a nested
/// list of extensions.
pub enum ExtensionValue {
    Atom(Primitive),
    Composite(Element),
    Extensions(Vec<Extension>),
}

/// A URI-keyed side-channel value. Built once through [`ExtensionBuilder`],
/// then immutable.
pub struct Extension {
    id: Option<String>,
    uri: Uri,
    value: ExtensionValue,
}

/// The mathematical content of an [`ExtensionValue`].
pub enum ExtensionValueV {
    Atom(PrimV),
    Composite(ElementV),
    Extensions(Seq<ExtensionV>),
}

/// The mathematical content of an [`Extension`].
pub struct ExtensionV {
    pub id: Option<Seq<char>>,
    pub uri: Seq<char>,
    pub value: ExtensionValueV,
}

/// The model of an extension payload.
pub open spec fn extval_model(v: ExtensionValue) -> ExtensionValueV
    decreases v,
{
    match v {
        ExtensionValue::Atom(p) => ExtensionValueV::Atom(p@),
        ExtensionValue::Composite(e) => ExtensionValueV::Composite(elt_model(e)),
        ExtensionValue::Extensions(es) => ExtensionValueV::Extensions(ext_models(es@)),
    }
}

/// The model of an extension.
pub closed spec fn ext_model(e: Extension) -> ExtensionV
    decreases e,
{
    ExtensionV {
        id: crate::element::opt_text(e.id),
        uri: e.uri@,
        value: extval_model(e.value),
    }
}

/// The models of a sequence of extensions.
pub open spec fn ext_models(s: Seq<Extension>) -> Seq<ExtensionV>
    decreases s,
{
    if s.len() == 0 {
        Seq::empty()
    } else {
        ext_models(s.drop_last()).push(ext_model(s.last()))
    }
}

impl View for ExtensionValue {
    type V = ExtensionValueV;

    open spec fn view(&self) -> ExtensionValueV {
        extval_model(*self)
    }
}

impl View for Extension {
    type V = ExtensionV;

    open spec fn view(&self) -> ExtensionV {
        ext_model(*self)
    }
}

/// The models of an extension sequence, taken pointwise.
pub proof fn lemma_ext_models(s: Seq<Extension>)
    ensures
        ext_models(s).len() == s.len(),
        forall|i: int| 0 <= i < s.len() ==> ext_models(s)[i] == ext_model(#[trigger] s[i]),
    decreases s.len(),
{
    if s.len() > 0 {
        lemma_ext_models(s.drop_last());
        assert forall|i: int| 0 <= i < s.len() implies ext_models(s)[i] == ext_model(
            #[trigger] s[i],
        ) by {
            if i < s.len() - 1 {
                assert(s.drop_last()[i] == s[i]);
            }
        }
    }
}

/// The JSON key of an extension payload, derived from the payload's concrete
/// kind: the primitive's own key, `value` followed by the composite's name,
/// or `extension` for a nested list.
pub open spec fn extval_name(v: ExtensionValueV) -> Seq<char> {
    match v {
        ExtensionValueV::Atom(p) => prim_ext_name(p),
        ExtensionValueV::Composite(e) => "value"@ + e.name,
        ExtensionValueV::Extensions(_) => "extension"@,
    }
}

/// Which payloads are valid extension values: composites and nested lists
/// unconditionally, atoms as the primitive family allows.
pub open spec fn extval_valid(v: ExtensionValueV) -> bool {
    match v {
        ExtensionValueV::Atom(p) => prim_valid_ext(p),
        ExtensionValueV::Composite(_) => true,
        ExtensionValueV::Extensions(_) => true,
    }
}

/// The JSON projection of an extension payload.
pub open spec fn extval_json(v: ExtensionValueV) -> JsonVal
    decreases v, 1int,
{
    match v {
        ExtensionValueV::Atom(p) => prim_json(p),
        ExtensionValueV::Composite(e) => value_json(e.value),
        ExtensionValueV::Extensions(es) => JsonVal::Arr(exts_json(es)),
    }
}

/// The JSON projection of an extension: an object holding the optional
/// `id`, the required `url`, and the payload under its kind-derived key.
pub open spec fn ext_json(e: ExtensionV) -> JsonVal
    decreases e, 1int,
{
    let base = match e.id {
        Some(i) => obj_insert(Seq::empty(), "id"@, JsonVal::Str(i)),
        None => Seq::<(Seq<char>, JsonVal)>::empty(),
    };
    let with_url = obj_insert(base, "url"@, JsonVal::Str(e.uri));
    JsonVal::Obj(obj_insert(with_url, extval_name(e.value), extval_json(e.value)))
}

/// The JSON projections of a sequence of extensions.
pub open spec fn exts_json(s: Seq<ExtensionV>) -> Seq<JsonVal>
    decreases s, 0int,
{
    if s.len() == 0 {
        Seq::empty()
    } else {
        exts_json(s.drop_last()).push(ext_json(s.last()))
    }
}

/// The projections of an extension sequence, taken pointwise.
pub proof fn lemma_exts_json(s: Seq<ExtensionV>)
    ensures
        exts_json(s).len() == s.len(),
        forall|i: int| 0 <= i < s.len() ==> exts_json(s)[i] == ext_json(#[trigger] s[i]),
    decreases s.len(),
{
    if s.len() > 0 {
        lemma_exts_json(s.drop_last());
        assert forall|i: int| 0 <= i < s.len() implies exts_json(s)[i] == ext_json(
            #[trigger] s[i],
        ) by {
            if i < s.len() - 1 {
                assert(s.drop_last()[i] == s[i]);
            }
        }
    }
}

impl ExtensionValue {
    /// The JSON key this payload takes.
    pub fn value_name(&self) -> (r: String)
        ensures
            r@ == extval_name(self@),
    {
        match self {
            ExtensionValue::Atom(p) => p.extension_name(),
            ExtensionValue::Composite(e) => {
                let mut s = String::from_str("value");
                s.append(e.name.as_str());
                s
            },
            ExtensionValue::Extensions(_) => String::from_str("extension"),
        }
    }

    /// Whether this payload is a valid extension value.
    pub fn valid_extension(&self) -> (r: bool)
        ensures
            r == extval_valid(self@),
    {
        match self {
            ExtensionValue::Atom(p) => p.valid_extension(),
            ExtensionValue::Composite(_) => true,
            ExtensionValue::Extensions(_) => true,
        }
    }

    /// The JSON projection of the payload.
    pub fn to_json(&self) -> (r: Json)
        ensures
            r@ == extval_json(self@),
        decreases self, 1int,
    {
        match self {
            ExtensionValue::Atom(p) => p.to_json(),
            ExtensionValue::Composite(e) => e.value.to_json(),
            ExtensionValue::Extensions(es) => extensions_json(es),
        }
    }
}

/// The JSON array of a sequence of encoded extensions.
pub(crate) fn extensions_json(exts: &Vec<Extension>) -> (r: Json)
    ensures
        r@ == JsonVal::Arr(exts_json(ext_models(exts@))),
    decreases exts, 0int,
{
    let mut out: Vec<Json> = Vec::new();
    let mut i: usize = 0;
    #[verifier::loop_isolation(false)]
    while i < exts.len()
        invariant
            0 <= i <= exts@.len(),
            out@.len() == i,
            forall|j: int|
                0 <= j < i ==> crate::json::json_model(#[trigger] out@[j]) == ext_json(
                    ext_model(exts@[j]),
                ),
        decreases exts@.len() - i,
    {
        let j = exts[i].to_json();
        out.push(j);
        i += 1;
    }
    proof {
        crate::json::lemma_json_models(out@);
        lemma_ext_models(exts@);
        lemma_exts_json(ext_models(exts@));
        assert forall|j: int| 0 <= j < out@.len() implies #[trigger] crate::json::json_models(
            out@,
        )[j] == exts_json(ext_models(exts@))[j] by {
            assert(crate::json::json_models(out@)[j] == crate::json::json_model(out@[j]));
            assert(ext_models(exts@)[j] == ext_model(exts@[j]));
        }
        assert(crate::json::json_models(out@) =~= exts_json(ext_models(exts@)));
    }
    Json::Array(out)
}

impl Extension {
    /// A fresh builder.
    pub fn builder() -> (r: ExtensionBuilder)
        ensures
            r@ == (ExtensionBuilderV { id: None, uri: None, value: None }),
    {
        ExtensionBuilder::new()
    }

    /// The JSON projection of the extension.
    pub fn to_json(&self) -> (r: Json)
        ensures
            r@ == ext_json(self@),
        decreases self, 2int,
    {
        let mut entries: Vec<(String, Json)> = Vec::new();
        proof {
            assert(entry_models(entries@) =~= Seq::<(Seq<char>, JsonVal)>::empty());
        }
        match &self.id {
            Some(i) => {
                insert_entry(&mut entries, String::from_str("id"), Json::Str(i.clone()));
            },
            None => {},
        }
        insert_entry(&mut entries, String::from_str("url"), Json::Str(self.uri.to_string()));
        let vname = self.value.value_name();
        let vjson = self.value.to_json();
        insert_entry(&mut entries, vname, vjson);
        Json::Object(entries)
    }
}

/// The causes on which building an extension fails.
#[derive(Debug, PartialEq, Eq, Structural)]
pub enum BuildError {
    /// A value-setting operation found a value already set.
    AlreadyHasValue,
    /// The candidate payload is not a valid extension value.
    InvalidValue,
    /// `build` found no URI.
    MissingUri,
    /// `build` found no value.
    MissingValue,
    /// `build` found neither URI nor value.
    BothMissing,
}

/// The mathematical content of an [`ExtensionBuilder`].
pub struct ExtensionBuilderV {
    pub id: Option<Seq<char>>,
    pub uri: Option<Seq<char>>,
    pub value: Option<ExtensionValueV>,
}

/// A builder with three fields each settable at most once; `build` demands
/// the URI and exactly one payload.
pub struct ExtensionBuilder {
    id: Option<String>,
    uri: Option<Uri>,
    value: Option<ExtensionValue>,
}

impl View for ExtensionBuilder {
    type V = ExtensionBuilderV;

    closed spec fn view(&self) -> ExtensionBuilderV {
        ExtensionBuilderV {
            id: crate::element::opt_text(self.id),
            uri: match self.uri {
                Some(u) => Some(u@),
                None => None,
            },
            value: match self.value {
                Some(v) => Some(extval_model(v)),
                None => None,
            },
        }
    }
}

impl ExtensionBuilder {
    /// A fresh builder with nothing set.
    pub fn new() -> (r: ExtensionBuilder)
        ensures
            r@ == (ExtensionBuilderV { id: None, uri: None, value: None }),
    {
        ExtensionBuilder { id: None, uri: None, value: None }
    }

    /// Sets the identifier.
    pub fn id(self, id: &str) -> (r: ExtensionBuilder)
        ensures
            r@ == (ExtensionBuilderV { id: Some(id@), ..self@ }),
    {
        ExtensionBuilder { id: Some(id.to_owned()), uri: self.uri, value: self.value }
    }

    /// Sets the URI.
    pub fn uri(self, uri: Uri) -> (r: ExtensionBuilder)
        ensures
            r@ == (ExtensionBuilderV { uri: Some(uri@), ..self@ }),
    {
        ExtensionBuilder { id: self.id, uri: Some(uri), value: self.value }
    }

    /// Sets the payload, exactly once: a second value fails, and so does an
    /// invalid one.
    fn value(self, v: ExtensionValue) -> (r: Result<ExtensionBuilder, BuildError>)
        ensures
            self@.value is Some ==> r == Result::<ExtensionBuilder, BuildError>::Err(
                BuildError::AlreadyHasValue,
            ),
            self@.value is None && !extval_valid(v@) ==> r
                == Result::<ExtensionBuilder, BuildError>::Err(BuildError::InvalidValue),
            self@.value is None && extval_valid(v@) ==> (r matches Ok(b) && b@
                == (ExtensionBuilderV { value: Some(v@), ..self@ })),
    {
        if self.value.is_some() {
            return Err(BuildError::AlreadyHasValue);
        }
        if v.valid_extension() {
            Ok(ExtensionBuilder { id: self.id, uri: self.uri, value: Some(v) })
        } else {
            Err(BuildError::InvalidValue)
        }
    }

    /// Sets an atomic payload.
    pub fn atom(self, p: Primitive) -> (r: Result<ExtensionBuilder, BuildError>)
        ensures
            self@.value is Some ==> r == Result::<ExtensionBuilder, BuildError>::Err(
                BuildError::AlreadyHasValue,
            ),
            self@.value is None && !prim_valid_ext(p@) ==> r
                == Result::<ExtensionBuilder, BuildError>::Err(BuildError::InvalidValue),
            self@.value is None && prim_valid_ext(p@) ==> (r matches Ok(b) && b@
                == (ExtensionBuilderV {
                value: Some(ExtensionValueV::Atom(p@)),
                ..self@
            })),
    {
        self.value(ExtensionValue::Atom(p))
    }

    /// Sets a composite payload.
    pub fn composite(self, e: Element) -> (r: Result<ExtensionBuilder, BuildError>)
        ensures
            self@.value is Some ==> r == Result::<ExtensionBuilder, BuildError>::Err(
                BuildError::AlreadyHasValue,
            ),
            self@.value is None ==> (r matches Ok(b) && b@ == (ExtensionBuilderV {
                value: Some(ExtensionValueV::Composite(elt_model(e))),
                ..self@
            })),
    {
        self.value(ExtensionValue::Composite(e))
    }

    /// Sets a nested list of extensions as the payload.
    pub fn extensions(self, e: Vec<Extension>) -> (r: Result<ExtensionBuilder, BuildError>)
        ensures
            self@.value is Some ==> r == Result::<ExtensionBuilder, BuildError>::Err(
                BuildError::AlreadyHasValue,
            ),
            self@.value is None ==> (r matches Ok(b) && b@ == (ExtensionBuilderV {
                value: Some(ExtensionValueV::Extensions(ext_models(e@))),
                ..self@
            })),
    {
        self.value(ExtensionValue::Extensions(e))
    }

    /// Produces the immutable extension; fails when the URI, the value, or
    /// both were never set, each with its own cause.
    pub fn build(self) -> (r: Result<Extension, BuildError>)
        ensures
            self@.uri is Some && self@.value is Some ==> (r matches Ok(e) && e@ == (ExtensionV {
                id: self@.id,
                uri: self@.uri->0,
                value: self@.value->0,
            })),
            self@.uri is None && self@.value is Some ==> r
                == Result::<Extension, BuildError>::Err(BuildError::MissingUri),
            self@.uri is Some && self@.value is None ==> r
                == Result::<Extension, BuildError>::Err(BuildError::MissingValue),
            self@.uri is None && self@.value is None ==> r
                == Result::<Extension, BuildError>::Err(BuildError::BothMissing),
    {
        match (self.uri, self.value) {
            (Some(u), Some(v)) => Ok(Extension { id: self.id, uri: u, value: v }),
            (None, Some(_)) => Err(BuildError::MissingUri),
            (Some(_), None) => Err(BuildError::MissingValue),
            (None, None) => Err(BuildError::BothMissing),
        }
    }
}

} // verus!
