//! The top-level named aggregate of elements and extensions, and the object
//! it encodes to: `resourceType` first, the elements' entries folded in, and
//! an `extension` array only when extensions are present.

use vstd::prelude::*;
use crate::element::{
    elt_model, elt_models, elts_fold, fold_elements, Element, ElementV,
};
use crate::extension::{ext_model, ext_models, exts_json, extensions_json, Extension, ExtensionV};
use crate::json::{entry_models, insert_entry, obj_insert, Json, JsonVal};

verus! {

/// The mathematical content of a [`Resource`].
pub struct ResourceV {
    pub name: Seq<char>,
    pub extensions: Seq<ExtensionV>,
    pub elts: Seq<ElementV>,
}

/// A named aggregate of elements and extensions; the root the encoder
/// starts from.
pub struct Resource {
    pub name: String,
    pub extensions: Vec<Extension>,
    pub elts: Vec<Element>,
}

impl View for Resource {
    type V = ResourceV;

    open spec fn view(&self) -> ResourceV {
        ResourceV {
            name: self.name@,
            extensions: ext_models(self.extensions@),
            elts: elt_models(self.elts@),
        }
    }
}

/// The JSON projection of a resource: an object holding `resourceType`,
/// every element's entries in order — later duplicates overwriting earlier
/// ones — and, only when extensions are present, the `extension` array.
pub open spec fn resource_json(r: ResourceV) -> JsonVal {
    let base = obj_insert(Seq::empty(), "resourceType"@, JsonVal::Str(r.name));
    let with_elts = elts_fold(base, r.elts);
    if r.extensions.len() > 0 {
        JsonVal::Obj(obj_insert(with_elts, "extension"@, JsonVal::Arr(exts_json(r.extensions))))
    } else {
        JsonVal::Obj(with_elts)
    }
}

impl Resource {
    /// An empty aggregate with the given resource type tag.
    pub fn new(name: &str) -> (r: Resource)
        ensures
            r@ == (ResourceV { name: name@, extensions: Seq::empty(), elts: Seq::empty() }),
    {
        let r = Resource { name: name.to_owned(), elts: Vec::new(), extensions: Vec::new() };
        proof {
            assert(r@.extensions =~= Seq::<ExtensionV>::empty());
            assert(r@.elts =~= Seq::<ElementV>::empty());
        }
        r
    }

    /// An aggregate with the given elements and no extensions.
    pub fn new_with_elts(name: &str, elts: Vec<Element>) -> (r: Resource)
        ensures
            r@ == (ResourceV {
                name: name@,
                extensions: Seq::empty(),
                elts: elt_models(elts@),
            }),
    {
        let mut r = Self::new(name);
        r.elts = elts;
        r
    }

    /// Appends an element, returning the aggregate for fluent construction.
    pub fn add_elt(self, e: Element) -> (r: Resource)
        ensures
            r@ == (ResourceV { elts: self@.elts.push(elt_model(e)), ..self@ }),
    {
        let ghost pre = self.elts@;
        let mut this = self;
        this.elts.push(e);
        proof {
            assert(this.elts@.drop_last() =~= pre);
            assert(elt_models(this.elts@) == elt_models(pre).push(elt_model(e)));
        }
        this
    }

    /// Appends an extension, returning the aggregate for fluent
    /// construction.
    pub fn add_ext(self, e: Extension) -> (r: Resource)
        ensures
            r@ == (ResourceV { extensions: self@.extensions.push(ext_model(e)), ..self@ }),
    {
        let ghost pre = self.extensions@;
        let mut this = self;
        this.extensions.push(e);
        proof {
            assert(this.extensions@.drop_last() =~= pre);
            assert(ext_models(this.extensions@) == ext_models(pre).push(ext_model(e)));
        }
        this
    }

    /// Whether any extension is attached.
    pub fn has_extensions(&self) -> (r: bool)
        ensures
            r == (self@.extensions.len() > 0),
    {
        proof {
            crate::extension::lemma_ext_models(self.extensions@);
        }
        self.extensions.len() > 0
    }

    /// The JSON projection of the resource.
    pub fn to_json(&self) -> (r: Json)
        ensures
            r@ == resource_json(self@),
    {
        let mut entries: Vec<(String, Json)> = Vec::new();
        proof {
            assert(entry_models(entries@) =~= Seq::<(Seq<char>, JsonVal)>::empty());
        }
        insert_entry(&mut entries, String::from_str("resourceType"), Json::Str(self.name.clone()));
        fold_elements(&mut entries, &self.elts);
        if self.has_extensions() {
            let arr = extensions_json(&self.extensions);
            insert_entry(&mut entries, String::from_str("extension"), arr);
        }
        Json::Object(entries)
    }
}

} // verus!
