//! Elements and values: the composite tree a resource is built from, and
//! the encoding that flattens a list of named elements into one JSON object,
//! splicing in computed shadow keys for identifier and extension metadata.

use vstd::prelude::*;
use crate::extension::{
    ext_models, exts_json, extensions_json, lemma_ext_models, Extension, ExtensionV,
};
use crate::json::{entry_models, insert_entry, json_model, json_models, lemma_json_models, obj_insert, Json, JsonVal};
use crate::primitive::{prim_json, Primitive, PrimV};
use crate::decimal::Dec;
use crate::stamp::Instant;
use crate::time::Time;
use crate::uri::Uri;

verus! {

/// The payload of a value: an atom, a list of values, or a nested list of
/// named elements.
pub enum ValueType {
    Atom(Primitive),
    List(Vec<Value>),
    Elt(Vec<Element>),
}

/// A field payload together with its out-of-band metadata: an optional
/// identifier and the extensions attached to the value.
pub struct Value {
    pub value: ValueType,
    pub id: Option<String>,
    pub extension: Vec<Extension>,
}

/// A named field holding a value; the unit of composition inside a resource
/// or a nested value.
pub struct Element {
    pub name: String,
    pub value: Value,
}

/// The mathematical content of a [`ValueType`].
pub enum ValueTypeV {
    Atom(PrimV),
    List(Seq<ValueV>),
    Elt(Seq<ElementV>),
}

/// The mathematical content of a [`Value`].
pub struct ValueV {
    pub value: ValueTypeV,
    pub id: Option<Seq<char>>,
    pub extension: Seq<ExtensionV>,
}

/// The mathematical content of an [`Element`].
pub struct ElementV {
    pub name: Seq<char>,
    pub value: ValueV,
}

/// The view of an optional owned string.
pub open spec fn opt_text(o: Option<String>) -> Option<Seq<char>> {
    match o {
        Some(s) => Some(s@),
        None => None,
    }
}

/// The model of a payload.
pub open spec fn vt_model(t: ValueType) -> ValueTypeV
    decreases t,
{
    match t {
        ValueType::Atom(p) => ValueTypeV::Atom(p@),
        ValueType::List(vs) => ValueTypeV::List(value_models(vs@)),
        ValueType::Elt(es) => ValueTypeV::Elt(elt_models(es@)),
    }
}

/// The model of a value.
pub open spec fn value_model(v: Value) -> ValueV
    decreases v,
{
    ValueV { value: vt_model(v.value), id: opt_text(v.id), extension: ext_models(v.extension@) }
}

/// The models of a sequence of values.
pub open spec fn value_models(s: Seq<Value>) -> Seq<ValueV>
    decreases s,
{
    if s.len() == 0 {
        Seq::empty()
    } else {
        value_models(s.drop_last()).push(value_model(s.last()))
    }
}

/// The model of an element.
pub open spec fn elt_model(e: Element) -> ElementV
    decreases e,
{
    ElementV { name: e.name@, value: value_model(e.value) }
}

/// The models of a sequence of elements.
pub open spec fn elt_models(s: Seq<Element>) -> Seq<ElementV>
    decreases s,
{
    if s.len() == 0 {
        Seq::empty()
    } else {
        elt_models(s.drop_last()).push(elt_model(s.last()))
    }
}

impl View for ValueType {
    type V = ValueTypeV;

    open spec fn view(&self) -> ValueTypeV {
        vt_model(*self)
    }
}

impl View for Value {
    type V = ValueV;

    open spec fn view(&self) -> ValueV {
        value_model(*self)
    }
}

impl View for Element {
    type V = ElementV;

    open spec fn view(&self) -> ElementV {
        elt_model(*self)
    }
}

/// The models of a value sequence, taken pointwise.
pub proof fn lemma_value_models(s: Seq<Value>)
    ensures
        value_models(s).len() == s.len(),
        forall|i: int| 0 <= i < s.len() ==> value_models(s)[i] == value_model(#[trigger] s[i]),
    decreases s.len(),
{
    if s.len() > 0 {
        lemma_value_models(s.drop_last());
        assert forall|i: int| 0 <= i < s.len() implies value_models(s)[i] == value_model(
            #[trigger] s[i],
        ) by {
            if i < s.len() - 1 {
                assert(s.drop_last()[i] == s[i]);
            }
        }
    }
}

/// The models of an element sequence, taken pointwise.
pub proof fn lemma_elt_models(s: Seq<Element>)
    ensures
        elt_models(s).len() == s.len(),
        forall|i: int| 0 <= i < s.len() ==> elt_models(s)[i] == elt_model(#[trigger] s[i]),
    decreases s.len(),
{
    if s.len() > 0 {
        lemma_elt_models(s.drop_last());
        assert forall|i: int| 0 <= i < s.len() implies elt_models(s)[i] == elt_model(
            #[trigger] s[i],
        ) by {
            if i < s.len() - 1 {
                assert(s.drop_last()[i] == s[i]);
            }
        }
    }
}

/// Whether a value carries metadata: an identifier or at least one
/// extension.
pub open spec fn has_meta(v: ValueV) -> bool {
    v.id is Some || v.extension.len() > 0
}

/// The shadow key of a field name: an underscore prefix.
pub open spec fn shadow_key(name: Seq<char>) -> Seq<char> {
    seq!['_'] + name
}

/// The JSON projection of a value's payload: an atom projects to its
/// primitive's JSON, a list to the array of its members' projections, and a
/// nested element list to the object the members fold into.
pub open spec fn value_json(v: ValueV) -> JsonVal
    decreases v, 1int,
{
    match v.value {
        ValueTypeV::Atom(p) => prim_json(p),
        ValueTypeV::List(vs) => JsonVal::Arr(values_json(vs)),
        ValueTypeV::Elt(es) => JsonVal::Obj(elts_fold(Seq::empty(), es)),
    }
}

/// The JSON projections of a sequence of values.
pub open spec fn values_json(s: Seq<ValueV>) -> Seq<JsonVal>
    decreases s, 1int,
{
    if s.len() == 0 {
        Seq::empty()
    } else {
        values_json(s.drop_last()).push(value_json(s.last()))
    }
}

/// Folds elements into an object under construction: each element writes its
/// name with its value's projection, and — only when its value carries
/// metadata — the shadow key with the metadata object. A later element of an
/// already-written name overwrites in place.
pub open spec fn elts_fold(
    acc: Seq<(Seq<char>, JsonVal)>,
    es: Seq<ElementV>,
) -> Seq<(Seq<char>, JsonVal)>
    decreases es, 2int,
{
    if es.len() == 0 {
        acc
    } else {
        let prev = elts_fold(acc, es.drop_last());
        let e = es.last();
        let with_val = obj_insert(prev, e.name, value_json(e.value));
        match value_meta(e.value) {
            Some(m) => obj_insert(with_val, shadow_key(e.name), m),
            None => with_val,
        }
    }
}

/// The metadata object of a value that carries metadata: an `id` entry when
/// the identifier is present, and an `extension` entry when extensions are.
pub open spec fn meta_obj(id: Option<Seq<char>>, exts: Seq<ExtensionV>) -> Seq<
    (Seq<char>, JsonVal),
>
    decreases exts, 1int,
{
    let base = match id {
        Some(i) => obj_insert(Seq::empty(), "id"@, JsonVal::Str(i)),
        None => Seq::empty(),
    };
    if exts.len() > 0 {
        obj_insert(base, "extension"@, JsonVal::Arr(exts_json(exts)))
    } else {
        base
    }
}

/// The shadow slots of a list value, positionally aligned with the list:
/// the member's metadata object where it carries metadata, else null.
pub open spec fn meta_slots(ms: Seq<ValueV>) -> Seq<JsonVal>
    decreases ms, 2int,
{
    if ms.len() == 0 {
        Seq::empty()
    } else {
        let slot = if has_meta(ms.last()) {
            JsonVal::Obj(meta_obj(ms.last().id, ms.last().extension))
        } else {
            JsonVal::Null
        };
        meta_slots(ms.drop_last()).push(slot)
    }
}

/// The shadow value of a list: the aligned slot array when at least one
/// member carries metadata, nothing otherwise.
pub open spec fn list_meta(ms: Seq<ValueV>) -> Option<JsonVal>
    decreases ms, 3int,
{
    if exists|i: int| 0 <= i < ms.len() && has_meta(#[trigger] ms[i]) {
        Some(JsonVal::Arr(meta_slots(ms)))
    } else {
        None
    }
}

/// The shadow value of any value: for a list payload, the aligned slot
/// array; otherwise the metadata object when the value carries metadata.
pub open spec fn value_meta(v: ValueV) -> Option<JsonVal>
    decreases v, 4int,
{
    match v.value {
        ValueTypeV::List(ms) => list_meta(ms),
        _ => if has_meta(v) {
            Some(JsonVal::Obj(meta_obj(v.id, v.extension)))
        } else {
            None
        },
    }
}

/// The one or two object entries a named value contributes when a container
/// flattens it: always the name with the projection, and the shadow key with
/// the metadata exactly when there is metadata.
pub open spec fn value_keys(name: Seq<char>, v: ValueV) -> Seq<(Seq<char>, JsonVal)> {
    match value_meta(v) {
        Some(m) => seq![(name, value_json(v)), (shadow_key(name), m)],
        None => seq![(name, value_json(v))],
    }
}

/// The shadow slots, taken pointwise.
pub proof fn lemma_meta_slots(ms: Seq<ValueV>)
    ensures
        meta_slots(ms).len() == ms.len(),
        forall|i: int|
            0 <= i < ms.len() ==> meta_slots(ms)[i] == (if has_meta(#[trigger] ms[i]) {
                JsonVal::Obj(meta_obj(ms[i].id, ms[i].extension))
            } else {
                JsonVal::Null
            }),
    decreases ms.len(),
{
    if ms.len() > 0 {
        lemma_meta_slots(ms.drop_last());
        assert forall|i: int| 0 <= i < ms.len() implies meta_slots(ms)[i] == (if has_meta(
            #[trigger] ms[i],
        ) {
            JsonVal::Obj(meta_obj(ms[i].id, ms[i].extension))
        } else {
            JsonVal::Null
        }) by {
            if i < ms.len() - 1 {
                assert(ms.drop_last()[i] == ms[i]);
            }
        }
    }
}

/// The JSON projections of a value sequence, taken pointwise.
pub proof fn lemma_values_json(s: Seq<ValueV>)
    ensures
        values_json(s).len() == s.len(),
        forall|i: int| 0 <= i < s.len() ==> values_json(s)[i] == value_json(#[trigger] s[i]),
    decreases s.len(),
{
    if s.len() > 0 {
        lemma_values_json(s.drop_last());
        assert forall|i: int| 0 <= i < s.len() implies values_json(s)[i] == value_json(
            #[trigger] s[i],
        ) by {
            if i < s.len() - 1 {
                assert(s.drop_last()[i] == s[i]);
            }
        }
    }
}

/// SHADOW-KEY EMISSION. A named value always contributes its name with its
/// projection, and contributes the shadow entry exactly when it has a
/// shadow value — for a non-list payload, exactly when the value itself
/// carries an identifier or an extension.
pub proof fn lemma_shadow_emission(name: Seq<char>, v: ValueV)
    ensures
        value_keys(name, v)[0] == (name, value_json(v)),
        value_keys(name, v).len() == 1 || value_keys(name, v).len() == 2,
        (value_keys(name, v).len() == 2) <==> value_meta(v) is Some,
        value_keys(name, v).len() == 2 ==> value_keys(name, v)[1] == (
            shadow_key(name),
            value_meta(v)->0,
        ),
        v.value !is List ==> ((value_meta(v) is Some) <==> has_meta(v)),
{
}

/// SHADOW-KEY ALIGNMENT. The shadow value of a list-payload value is
/// emitted exactly when some member carries metadata, and it is then an
/// array of the same length as the list whose slot `i` is null exactly when
/// member `i` carries no metadata, so that consumers can correlate the
/// primary array with the shadow array by position.
pub proof fn lemma_shadow_alignment(v: ValueV, ms: Seq<ValueV>)
    requires
        v.value == ValueTypeV::List(ms),
    ensures
        (value_meta(v) is Some) <==> exists|i: int| 0 <= i < ms.len() && has_meta(
            #[trigger] ms[i],
        ),
        value_meta(v) matches Some(m) ==> {
            &&& m matches JsonVal::Arr(slots)
            &&& slots.len() == ms.len()
            &&& forall|i: int| 0 <= i < ms.len() ==> ((slots[i] is Null) <==> !has_meta(#[trigger] ms[i]))
        },
{
    lemma_meta_slots(ms);
}

impl Value {
    /// A bare atomic value: no identifier, no extensions.
    pub fn atom(p: Primitive) -> (r: Value)
        ensures
            r@ == (ValueV { value: ValueTypeV::Atom(p@), id: None, extension: Seq::empty() }),
    {
        let r = Value { value: ValueType::Atom(p), id: None, extension: Vec::new() };
        proof {
            assert(r@.extension =~= Seq::<ExtensionV>::empty());
        }
        r
    }

    /// A bare list value: no identifier, no extensions.
    pub fn list(members: Vec<Value>) -> (r: Value)
        ensures
            r@ == (ValueV {
                value: ValueTypeV::List(value_models(members@)),
                id: None,
                extension: Seq::empty(),
            }),
    {
        let r = Value { value: ValueType::List(members), id: None, extension: Vec::new() };
        proof {
            assert(r@.extension =~= Seq::<ExtensionV>::empty());
        }
        r
    }

    /// A bare nested-element value: no identifier, no extensions.
    pub fn elts(members: Vec<Element>) -> (r: Value)
        ensures
            r@ == (ValueV {
                value: ValueTypeV::Elt(elt_models(members@)),
                id: None,
                extension: Seq::empty(),
            }),
    {
        let r = Value { value: ValueType::Elt(members), id: None, extension: Vec::new() };
        proof {
            assert(r@.extension =~= Seq::<ExtensionV>::empty());
        }
        r
    }

    /// Whether at least one extension is attached.
    pub fn has_extension(&self) -> (r: bool)
        ensures
            r == (self@.extension.len() > 0),
    {
        proof {
            lemma_ext_models(self.extension@);
        }
        self.extension.len() > 0
    }

    /// Whether an identifier is attached.
    pub fn has_id(&self) -> (r: bool)
        ensures
            r == (self@.id is Some),
    {
        self.id.is_some()
    }

    /// Whether the value carries metadata at all.
    pub fn has_idext(&self) -> (r: bool)
        ensures
            r == has_meta(self@),
    {
        self.has_id() || self.has_extension()
    }

    /// Returns the value with the given identifier attached.
    pub fn id(self, id: &str) -> (r: Value)
        ensures
            r@ == (ValueV { id: Some(id@), ..self@ }),
    {
        Value { value: self.value, id: Some(id.to_owned()), extension: self.extension }
    }

    /// The JSON projection of the payload.
    pub fn to_json(&self) -> (r: Json)
        ensures
            r@ == value_json(self@),
        decreases self, 1int,
    {
        match &self.value {
            ValueType::Atom(p) => p.to_json(),
            ValueType::List(vs) => {
                let mut out: Vec<Json> = Vec::new();
                let mut i: usize = 0;
                #[verifier::loop_isolation(false)]
                while i < vs.len()
                    invariant
                        0 <= i <= vs@.len(),
                        out@.len() == i,
                        forall|j: int|
                            0 <= j < i ==> json_model(#[trigger] out@[j]) == value_json(
                                value_model(vs@[j]),
                            ),
                    decreases vs@.len() - i,
                {
                    let member_json = vs[i].to_json();
                    out.push(member_json);
                    i += 1;
                }
                proof {
                    lemma_json_models(out@);
                    lemma_value_models(vs@);
                    lemma_values_json(value_models(vs@));
                    assert forall|j: int| 0 <= j < out@.len() implies #[trigger] json_models(
                        out@,
                    )[j] == values_json(value_models(vs@))[j] by {
                        assert(json_models(out@)[j] == json_model(out@[j]));
                        assert(value_models(vs@)[j] == value_model(vs@[j]));
                    }
                    assert(json_models(out@) =~= values_json(value_models(vs@)));
                }
                Json::Array(out)
            },
            ValueType::Elt(es) => {
                let mut entries: Vec<(String, Json)> = Vec::new();
                proof {
                    assert(entry_models(entries@) =~= Seq::<(Seq<char>, JsonVal)>::empty());
                }
                fold_elements(&mut entries, es);
                Json::Object(entries)
            },
        }
    }

    /// The metadata object of this value alone: its identifier and its
    /// extensions.
    fn make_meta_obj(&self) -> (r: Json)
        ensures
            r@ == JsonVal::Obj(meta_obj(self@.id, self@.extension)),
        decreases self, 0int,
    {
        let mut entries: Vec<(String, Json)> = Vec::new();
        proof {
            assert(entry_models(entries@) =~= Seq::<(Seq<char>, JsonVal)>::empty());
        }
        match &self.id {
            Some(id) => {
                insert_entry(&mut entries, String::from_str("id"), Json::Str(id.clone()));
            },
            None => {},
        }
        if self.extension.len() > 0 {
            proof {
                lemma_ext_models(self.extension@);
            }
            let arr = extensions_json(&self.extension);
            insert_entry(&mut entries, String::from_str("extension"), arr);
        } else {
            proof {
                lemma_ext_models(self.extension@);
            }
        }
        Json::Object(entries)
    }

    /// The shadow value of this value, when it has one.
    pub fn meta_json(&self) -> (r: Option<Json>)
        ensures
            match r {
                Some(j) => value_meta(self@) == Some(j@),
                None => value_meta(self@) is None,
            },
        decreases self, 2int,
    {
        match &self.value {
            ValueType::List(vs) => list_meta_json(vs),
            _ => {
                if self.has_idext() {
                    Some(self.make_meta_obj())
                } else {
                    None
                }
            },
        }
    }

    /// The one or two (key, JSON) pairs this value contributes under the
    /// given name: the name with the projection, and the shadow key with the
    /// metadata exactly when there is metadata.
    pub fn keys(&self, name: &str) -> (r: Vec<(String, Json)>)
        ensures
            entry_models(r@) == value_keys(name@, self@),
        decreases self, 3int,
    {
        let mut v: Vec<(String, Json)> = Vec::new();
        let primary = self.to_json();
        v.push((name.to_owned(), primary));
        match self.meta_json() {
            Some(m) => {
                let mut sk = String::from_str("_");
                proof {
                    reveal_strlit("_");
                    assert("_"@ =~= seq!['_']);
                }
                sk.append(name);
                v.push((sk, m));
                proof {
                    crate::json::lemma_entry_models(v@);
                    assert(v@.len() == 2);
                    assert(entry_models(v@)[0] == (v@[0].0@, json_model(v@[0].1)));
                    assert(entry_models(v@)[1] == (v@[1].0@, json_model(v@[1].1)));
                    assert(entry_models(v@) =~= value_keys(name@, self@));
                }
            },
            None => {
                proof {
                    crate::json::lemma_entry_models(v@);
                    assert(v@.len() == 1);
                    assert(entry_models(v@)[0] == (v@[0].0@, json_model(v@[0].1)));
                    assert(entry_models(v@) =~= value_keys(name@, self@));
                }
            },
        }
        v
    }
}

/// The shadow value of a list payload: the aligned slot array when some
/// member carries metadata.
fn list_meta_json(list: &Vec<Value>) -> (r: Option<Json>)
    ensures
        match r {
            Some(j) => list_meta(value_models(list@)) == Some(j@),
            None => list_meta(value_models(list@)) is None,
        },
    decreases list, 0int,
{
    let ghost ms = value_models(list@);
    proof {
        lemma_value_models(list@);
    }
    let mut found = false;
    let mut slots: Vec<Json> = Vec::new();
    let mut i: usize = 0;
    #[verifier::loop_isolation(false)]
    while i < list.len()
        invariant
            0 <= i <= list@.len(),
            slots@.len() == i,
            found == exists|j: int| 0 <= j < i && has_meta(#[trigger] ms[j]),
            forall|j: int|
                0 <= j < i ==> json_model(#[trigger] slots@[j]) == (if has_meta(ms[j]) {
                    JsonVal::Obj(meta_obj(ms[j].id, ms[j].extension))
                } else {
                    JsonVal::Null
                }),
        decreases list@.len() - i,
    {
        if list[i].has_idext() {
            found = true;
            let slot = list[i].make_meta_obj();
            slots.push(slot);
            proof {
                assert(has_meta(ms[i as int]));
            }
        } else {
            slots.push(Json::Null);
        }
        i += 1;
    }
    if found {
        proof {
            lemma_json_models(slots@);
            lemma_meta_slots(ms);
            assert forall|j: int| 0 <= j < slots@.len() implies #[trigger] json_models(slots@)[j]
                == meta_slots(ms)[j] by {
                assert(json_models(slots@)[j] == json_model(slots@[j]));
                assert(has_meta(ms[j]) ==> meta_slots(ms)[j] == JsonVal::Obj(
                    meta_obj(ms[j].id, ms[j].extension),
                ));
            }
            assert(json_models(slots@) =~= meta_slots(ms));
        }
        Some(Json::Array(slots))
    } else {
        None
    }
}

/// Folds each element's entries into the object under construction.
pub(crate) fn fold_elements(entries: &mut Vec<(String, Json)>, elts: &Vec<Element>)
    ensures
        entry_models(final(entries)@) == elts_fold(entry_models(old(entries)@), elt_models(elts@)),
    decreases elts, 0int,
{
    let ghost acc0 = entry_models(old(entries)@);
    let mut i: usize = 0;
    #[verifier::loop_isolation(false)]
    while i < elts.len()
        invariant
            0 <= i <= elts@.len(),
            entry_models(entries@) == elts_fold(acc0, elt_models(elts@.take(i as int))),
        decreases elts@.len() - i,
    {
        let e = &elts[i];
        let ghost before = entry_models(entries@);
        let member_json = e.value.to_json();
        let key = e.name.clone();
        insert_entry(entries, key, member_json);
        match e.value.meta_json() {
            Some(m) => {
                let mut sk = String::from_str("_");
                proof {
                    reveal_strlit("_");
                    assert("_"@ =~= seq!['_']);
                }
                sk.append(e.name.as_str());
                insert_entry(entries, sk, m);
            },
            None => {},
        }
        proof {
            lemma_elt_models(elts@);
            let pre = elt_models(elts@.take(i as int));
            let post = elt_models(elts@.take(i + 1 as int));
            lemma_elt_models(elts@.take(i as int));
            lemma_elt_models(elts@.take(i + 1 as int));
            assert forall|j: int| 0 <= j < i implies elts@.take(i + 1 as int).drop_last()[j]
                == elts@.take(i as int)[j] by {}
            assert(elts@.take(i + 1 as int).drop_last() =~= elts@.take(i as int));
            assert(elts@.take(i + 1 as int).last() == elts@[i as int]);
            assert(post.drop_last() =~= pre);
            assert(post.last() == elt_model(elts@[i as int]));
            assert(entry_models(entries@) == elts_fold(acc0, post));
        }
        i += 1;
    }
    proof {
        assert(elts@.take(elts@.len() as int) =~= elts@);
    }
}

/// Builds an element from a name and anything a value can be made from.
pub trait NamedFrom<T>: Sized {
    /// The element with the given name holding the given payload.
    fn with(name: &str, val: T) -> Self;
}

impl From<bool> for Value {
    /// A convenience conversion; it carries no contract, the fields of the
    /// built value being open to inspection.
    fn from(v: bool) -> (r: Self) {
        Value::atom(Primitive::from(v))
    }
}

impl vstd::std_specs::convert::FromSpecImpl<bool> for Value {
    open spec fn obeys_from_spec() -> bool {
        false
    }

    open spec fn from_spec(v: bool) -> Self {
        arbitrary()
    }
}

impl From<i32> for Value {
    fn from(v: i32) -> (r: Self) {
        Value::atom(Primitive::from(v))
    }
}

impl vstd::std_specs::convert::FromSpecImpl<i32> for Value {
    open spec fn obeys_from_spec() -> bool {
        false
    }

    open spec fn from_spec(v: i32) -> Self {
        arbitrary()
    }
}

impl From<u32> for Value {
    fn from(v: u32) -> (r: Self) {
        Value::atom(Primitive::from(v))
    }
}

impl vstd::std_specs::convert::FromSpecImpl<u32> for Value {
    open spec fn obeys_from_spec() -> bool {
        false
    }

    open spec fn from_spec(v: u32) -> Self {
        arbitrary()
    }
}

impl From<Dec> for Value {
    fn from(v: Dec) -> (r: Self) {
        Value::atom(Primitive::from(v))
    }
}

impl vstd::std_specs::convert::FromSpecImpl<Dec> for Value {
    open spec fn obeys_from_spec() -> bool {
        false
    }

    open spec fn from_spec(v: Dec) -> Self {
        arbitrary()
    }
}

impl From<String> for Value {
    fn from(v: String) -> (r: Self) {
        Value::atom(Primitive::from(v))
    }
}

impl vstd::std_specs::convert::FromSpecImpl<String> for Value {
    open spec fn obeys_from_spec() -> bool {
        false
    }

    open spec fn from_spec(v: String) -> Self {
        arbitrary()
    }
}

impl From<Time> for Value {
    fn from(v: Time) -> (r: Self) {
        Value::atom(Primitive::from(v))
    }
}

impl vstd::std_specs::convert::FromSpecImpl<Time> for Value {
    open spec fn obeys_from_spec() -> bool {
        false
    }

    open spec fn from_spec(v: Time) -> Self {
        arbitrary()
    }
}

impl From<Uri> for Value {
    fn from(v: Uri) -> (r: Self) {
        Value::atom(Primitive::from(v))
    }
}

impl vstd::std_specs::convert::FromSpecImpl<Uri> for Value {
    open spec fn obeys_from_spec() -> bool {
        false
    }

    open spec fn from_spec(v: Uri) -> Self {
        arbitrary()
    }
}

impl From<Instant> for Value {
    fn from(v: Instant) -> (r: Self) {
        Value::atom(Primitive::from(v))
    }
}

impl vstd::std_specs::convert::FromSpecImpl<Instant> for Value {
    open spec fn obeys_from_spec() -> bool {
        false
    }

    open spec fn from_spec(v: Instant) -> Self {
        arbitrary()
    }
}

impl<'a> From<&'a str> for Value {
    fn from(v: &'a str) -> (r: Self) {
        Value::atom(Primitive::String(v.to_owned()))
    }
}

impl<'a> vstd::std_specs::convert::FromSpecImpl<&'a str> for Value {
    open spec fn obeys_from_spec() -> bool {
        false
    }

    open spec fn from_spec(v: &'a str) -> Self {
        arbitrary()
    }
}

impl From<Vec<Element>> for Value {
    fn from(v: Vec<Element>) -> (r: Self) {
        Value::elts(v)
    }
}

impl vstd::std_specs::convert::FromSpecImpl<Vec<Element>> for Value {
    open spec fn obeys_from_spec() -> bool {
        false
    }

    open spec fn from_spec(v: Vec<Element>) -> Self {
        arbitrary()
    }
}

impl Element {
    /// Returns the element with the given identifier attached to its value.
    pub fn id(self, id: &str) -> (r: Element)
        ensures
            r@ == (ElementV {
                name: self@.name,
                value: ValueV { id: Some(id@), ..self@.value },
            }),
    {
        let v = self.value;
        Element { name: self.name, value: v.id(id) }
    }
}

impl NamedFrom<bool> for Element {
    fn with(name: &str, val: bool) -> Self {
        Element { name: name.to_owned(), value: Value::from(val) }
    }
}

impl NamedFrom<i32> for Element {
    fn with(name: &str, val: i32) -> Self {
        Element { name: name.to_owned(), value: Value::from(val) }
    }
}

impl NamedFrom<u32> for Element {
    fn with(name: &str, val: u32) -> Self {
        Element { name: name.to_owned(), value: Value::from(val) }
    }
}

impl NamedFrom<Dec> for Element {
    fn with(name: &str, val: Dec) -> Self {
        Element { name: name.to_owned(), value: Value::from(val) }
    }
}

impl NamedFrom<String> for Element {
    fn with(name: &str, val: String) -> Self {
        Element { name: name.to_owned(), value: Value::from(val) }
    }
}

impl NamedFrom<Time> for Element {
    fn with(name: &str, val: Time) -> Self {
        Element { name: name.to_owned(), value: Value::from(val) }
    }
}

impl NamedFrom<Uri> for Element {
    fn with(name: &str, val: Uri) -> Self {
        Element { name: name.to_owned(), value: Value::from(val) }
    }
}

impl NamedFrom<Instant> for Element {
    fn with(name: &str, val: Instant) -> Self {
        Element { name: name.to_owned(), value: Value::from(val) }
    }
}

impl<'a> NamedFrom<&'a str> for Element {
    fn with(name: &str, val: &'a str) -> Self {
        Element { name: name.to_owned(), value: Value::from(val) }
    }
}

impl NamedFrom<Vec<Element>> for Element {
    fn with(name: &str, val: Vec<Element>) -> Self {
        Element { name: name.to_owned(), value: Value::elts(val) }
    }
}

impl NamedFrom<Vec<Value>> for Element {
    fn with(name: &str, val: Vec<Value>) -> Self {
        Element { name: name.to_owned(), value: Value::list(val) }
    }
}

} // verus!
