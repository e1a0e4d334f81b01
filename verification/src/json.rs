//! The JSON value tree that encoding produces. Objects keep their entries in
//! insertion order with unique keys, and a later entry for an existing key
//! overwrites the earlier value in place. Numbers of decimal origin are
//! carried as their exact decimal text, so no precision is lost in the tree.

use vstd::prelude::*;

verus! {

use vstd::pervasive::VecAdditionalExecFns;

/// A JSON value.
#[derive(Debug, PartialEq)]
pub enum Json {
    Null,
    Boolean(bool),
    I64(i64),
    U64(u64),
    /// A number carried as its exact decimal text.
    Num(String),
    Str(String),
    Array(Vec<Json>),
    Object(Vec<(String, Json)>),
}

/// The mathematical content of a [`Json`] value.
pub enum JsonVal {
    Null,
    Bool(bool),
    I64(i64),
    U64(u64),
    Num(Seq<char>),
    Str(Seq<char>),
    Arr(Seq<JsonVal>),
    Obj(Seq<(Seq<char>, JsonVal)>),
}

/// The model of a JSON value.
pub open spec fn json_model(j: Json) -> JsonVal
    decreases j,
{
    match j {
        Json::Null => JsonVal::Null,
        Json::Boolean(b) => JsonVal::Bool(b),
        Json::I64(i) => JsonVal::I64(i),
        Json::U64(u) => JsonVal::U64(u),
        Json::Num(s) => JsonVal::Num(s@),
        Json::Str(s) => JsonVal::Str(s@),
        Json::Array(els) => JsonVal::Arr(json_models(els@)),
        Json::Object(es) => JsonVal::Obj(entry_models(es@)),
    }
}

/// The models of a sequence of JSON values.
pub open spec fn json_models(s: Seq<Json>) -> Seq<JsonVal>
    decreases s,
{
    if s.len() == 0 {
        Seq::empty()
    } else {
        json_models(s.drop_last()).push(json_model(s.last()))
    }
}

/// The models of a sequence of object entries.
pub open spec fn entry_models(s: Seq<(String, Json)>) -> Seq<(Seq<char>, JsonVal)>
    decreases s,
{
    if s.len() == 0 {
        Seq::empty()
    } else {
        entry_models(s.drop_last()).push((s.last().0@, json_model(s.last().1)))
    }
}

impl View for Json {
    type V = JsonVal;

    open spec fn view(&self) -> JsonVal {
        json_model(*self)
    }
}

/// The models of a value sequence, taken pointwise.
pub proof fn lemma_json_models(s: Seq<Json>)
    ensures
        json_models(s).len() == s.len(),
        forall|i: int| 0 <= i < s.len() ==> json_models(s)[i] == json_model(#[trigger] s[i]),
    decreases s.len(),
{
    if s.len() > 0 {
        lemma_json_models(s.drop_last());
        assert forall|i: int| 0 <= i < s.len() implies json_models(s)[i] == json_model(
            #[trigger] s[i],
        ) by {
            if i < s.len() - 1 {
                assert(s.drop_last()[i] == s[i]);
            }
        }
    }
}

/// The models of an entry sequence, taken pointwise.
pub proof fn lemma_entry_models(s: Seq<(String, Json)>)
    ensures
        entry_models(s).len() == s.len(),
        forall|i: int|
            0 <= i < s.len() ==> entry_models(s)[i] == ((#[trigger] s[i]).0@, json_model(s[i].1)),
    decreases s.len(),
{
    if s.len() > 0 {
        lemma_entry_models(s.drop_last());
        assert forall|i: int| 0 <= i < s.len() implies entry_models(s)[i] == ((#[trigger] s[i]).0@,
        json_model(s[i].1)) by {
            if i < s.len() - 1 {
                assert(s.drop_last()[i] == s[i]);
            }
        }
    }
}

/// Insertion into an ordered object: a later entry for an existing key
/// overwrites the value at that key's place; a new key goes to the end.
pub open spec fn obj_insert(
    es: Seq<(Seq<char>, JsonVal)>,
    k: Seq<char>,
    v: JsonVal,
) -> Seq<(Seq<char>, JsonVal)>
    decreases es.len(),
{
    if es.len() == 0 {
        seq![(k, v)]
    } else if es[0].0 == k {
        seq![(k, v)] + es.skip(1)
    } else {
        seq![es[0]] + obj_insert(es.skip(1), k, v)
    }
}

/// The value an ordered object holds at a key: that of the first entry with
/// the key, if any.
pub open spec fn obj_get(es: Seq<(Seq<char>, JsonVal)>, k: Seq<char>) -> Option<JsonVal>
    decreases es.len(),
{
    if es.len() == 0 {
        None
    } else if es[0].0 == k {
        Some(es[0].1)
    } else {
        obj_get(es.skip(1), k)
    }
}

/// LOOKUP AFTER INSERTION. Writing an entry makes the object hold the new
/// value at that key and leaves every other key's value as it was:
/// last-write-wins, with no effect on neighbours.
pub proof fn lemma_obj_insert_get(es: Seq<(Seq<char>, JsonVal)>, k: Seq<char>, v: JsonVal)
    ensures
        obj_get(obj_insert(es, k, v), k) == Some(v),
        forall|k2: Seq<char>| k2 != k ==> obj_get(obj_insert(es, k, v), k2) == obj_get(es, k2),
    decreases es.len(),
{
    if es.len() == 0 {
        assert(obj_insert(es, k, v)[0] == (k, v));
        assert forall|k2: Seq<char>| k2 != k implies obj_get(obj_insert(es, k, v), k2) == obj_get(
            es,
            k2,
        ) by {
            assert(obj_insert(es, k, v) == seq![(k, v)]);
            assert(obj_insert(es, k, v).skip(1) =~= es);
        }
    } else if es[0].0 == k {
        let r = obj_insert(es, k, v);
        assert(r[0] == (k, v));
        assert forall|k2: Seq<char>| k2 != k implies obj_get(r, k2) == obj_get(es, k2) by {
            assert(r.skip(1) =~= es.skip(1));
        }
    } else {
        lemma_obj_insert_get(es.skip(1), k, v);
        let r = obj_insert(es, k, v);
        assert(r[0] == es[0]);
        assert(r.skip(1) =~= obj_insert(es.skip(1), k, v));
        assert forall|k2: Seq<char>| k2 != k implies obj_get(r, k2) == obj_get(es, k2) by {
            if es[0].0 != k2 {
                assert(obj_get(r, k2) == obj_get(obj_insert(es.skip(1), k, v), k2));
                assert(obj_get(es, k2) == obj_get(es.skip(1), k2));
            }
        }
    }
}

/// When the key is absent, insertion appends the entry.
proof fn lemma_obj_insert_missing(es: Seq<(Seq<char>, JsonVal)>, k: Seq<char>, v: JsonVal)
    requires
        forall|j: int| 0 <= j < es.len() ==> (#[trigger] es[j]).0 != k,
    ensures
        obj_insert(es, k, v) == es.push((k, v)),
    decreases es.len(),
{
    if es.len() == 0 {
        assert(obj_insert(es, k, v) =~= es.push((k, v)));
    } else {
        assert(es[0].0 != k);
        assert forall|j: int| 0 <= j < es.skip(1).len() implies (#[trigger] es.skip(1)[j]).0
            != k by {
            assert(es.skip(1)[j] == es[j + 1]);
        }
        lemma_obj_insert_missing(es.skip(1), k, v);
        assert(obj_insert(es, k, v) =~= es.push((k, v)));
    }
}

/// When the key is present first at place `i`, insertion updates that place.
proof fn lemma_obj_insert_found(es: Seq<(Seq<char>, JsonVal)>, k: Seq<char>, v: JsonVal, i: int)
    requires
        0 <= i < es.len(),
        es[i].0 == k,
        forall|j: int| 0 <= j < i ==> (#[trigger] es[j]).0 != k,
    ensures
        obj_insert(es, k, v) == es.update(i, (k, v)),
    decreases es.len(),
{
    if i == 0 {
        assert(obj_insert(es, k, v) =~= es.update(0, (k, v)));
    } else {
        assert(es[0].0 != k);
        assert(es.skip(1)[i - 1] == es[i]);
        assert forall|j: int| 0 <= j < i - 1 implies (#[trigger] es.skip(1)[j]).0 != k by {
            assert(es.skip(1)[j] == es[j + 1]);
        }
        lemma_obj_insert_found(es.skip(1), k, v, i - 1);
        assert(obj_insert(es, k, v) =~= es.update(i, (k, v)));
    }
}

/// Writes one entry of an object under construction: an existing key takes
/// the new value in place, a new key goes to the end.
pub fn insert_entry(entries: &mut Vec<(String, Json)>, key: String, val: Json)
    ensures
        entry_models(final(entries)@) == obj_insert(
            entry_models(old(entries)@),
            key@,
            json_model(val),
        ),
{
    let mut i: usize = 0;
    let n = entries.len();
    while i < n
        invariant
            n == entries@.len(),
            0 <= i <= n,
            entries@ == old(entries)@,
            forall|j: int| 0 <= j < i ==> (#[trigger] entries@[j]).0@ != key@,
        decreases n - i,
    {
        if entries[i].0 == key {
            let ghost pre = entries@;
            let ghost mpre = entry_models(pre);
            proof {
                lemma_entry_models(pre);
                assert(mpre[i as int].0 == key@);
                assert forall|j: int| 0 <= j < i implies (#[trigger] mpre[j]).0 != key@ by {
                    assert(mpre[j] == (pre[j].0@, json_model(pre[j].1)));
                }
                lemma_obj_insert_found(mpre, key@, json_model(val), i as int);
            }
            entries.set(i, (key, val));
            proof {
                lemma_entry_models(entries@);
                assert(entries@ == pre.update(i as int, (key, val)));
                assert forall|j: int| 0 <= j < entries@.len() implies entry_models(entries@)[j]
                    == mpre.update(i as int, (key@, json_model(val)))[j] by {
                    if j != i {
                        assert(entries@[j] == pre[j]);
                        assert(mpre[j] == (pre[j].0@, json_model(pre[j].1)));
                    } else {
                        assert(entries@[j] == (key, val));
                    }
                }
                assert(entry_models(entries@) =~= mpre.update(i as int, (key@, json_model(val))));
            }
            return ;
        }
        i += 1;
    }
    let ghost pre = entries@;
    let ghost mpre = entry_models(pre);
    proof {
        lemma_entry_models(pre);
        assert forall|j: int| 0 <= j < mpre.len() implies (#[trigger] mpre[j]).0 != key@ by {
            assert(mpre[j] == (pre[j].0@, json_model(pre[j].1)));
        }
        lemma_obj_insert_missing(mpre, key@, json_model(val));
    }
    entries.push((key, val));
    proof {
        assert(entries@.drop_last() =~= pre);
        assert(entries@.last() == (key, val));
        assert(entry_models(entries@) == entry_models(pre).push((key@, json_model(val))));
    }
}

} // verus!
