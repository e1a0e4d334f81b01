//! The primitive value family: every leaf scalar knows its canonical textual
//! rendering, its JSON projection, and the JSON key it takes when it stands
//! as an extension value.

use vstd::prelude::*;
use crate::decimal::{Dec, DecV, dec_render};
use crate::json::{Json, JsonVal};
use crate::render::{dec_digits, int_digits, i64_to_string, u64_to_string};
use crate::stamp::Instant;
use crate::time::{Time, TimeV, time_render};
use crate::uri::Uri;
use crate::vardate::{VarDate, VarDateV, date_render};

verus! {

/// The mathematical content of a [`Primitive`].
pub enum PrimV {
    Boolean(bool),
    Int(i32),
    UInt(u32),
    PInt(u32),
    Decimal(DecV),
    String(Seq<char>),
    Id(Seq<char>),
    Uri(Seq<char>),
    Oid(Seq<char>),
    Base64(Seq<char>),
    Instant(Seq<char>),
    Date(VarDateV),
    DateTime(VarDateV),
    Time(TimeV),
}

/// A leaf scalar value.
pub enum Primitive {
    Boolean(bool),
    Int(i32),
    UInt(u32),
    PInt(u32),
    Decimal(Dec),
    String(String),
    Id(String),
    Uri(Uri),
    Oid(Uri),
    Base64(String),
    Instant(Instant),
    Date(VarDate),
    DateTime(VarDate),
    Time(Time),
}

impl View for Primitive {
    type V = PrimV;

    open spec fn view(&self) -> PrimV {
        match self {
            Primitive::Boolean(b) => PrimV::Boolean(*b),
            Primitive::Int(i) => PrimV::Int(*i),
            Primitive::UInt(u) => PrimV::UInt(*u),
            Primitive::PInt(u) => PrimV::PInt(*u),
            Primitive::Decimal(d) => PrimV::Decimal(d@),
            Primitive::String(s) => PrimV::String(s@),
            Primitive::Id(s) => PrimV::Id(s@),
            Primitive::Uri(u) => PrimV::Uri(u@),
            Primitive::Oid(u) => PrimV::Oid(u@),
            Primitive::Base64(s) => PrimV::Base64(s@),
            Primitive::Instant(i) => PrimV::Instant(i@),
            Primitive::Date(v) => PrimV::Date(v@),
            Primitive::DateTime(v) => PrimV::DateTime(v@),
            Primitive::Time(t) => PrimV::Time(t@),
        }
    }
}

/// The canonical textual rendering of a primitive.
pub open spec fn prim_render(p: PrimV) -> Seq<char> {
    match p {
        PrimV::Boolean(b) => if b {
            "true"@
        } else {
            "false"@
        },
        PrimV::Int(i) => int_digits(i as int),
        PrimV::UInt(u) => dec_digits(u as nat),
        PrimV::PInt(u) => dec_digits(u as nat),
        PrimV::Decimal(d) => dec_render(d),
        PrimV::String(s) => s,
        PrimV::Id(s) => s,
        PrimV::Uri(s) => s,
        PrimV::Oid(s) => s,
        PrimV::Base64(s) => s,
        PrimV::Instant(s) => s,
        PrimV::Date(v) => date_render(v),
        PrimV::DateTime(v) => date_render(v),
        PrimV::Time(t) => time_render(t),
    }
}

/// The JSON projection of a primitive: numbers for the numeric variants —
/// the decimal as its exact text — and the canonical rendering as a string
/// for everything else.
pub open spec fn prim_json(p: PrimV) -> JsonVal {
    match p {
        PrimV::Boolean(b) => JsonVal::Bool(b),
        PrimV::Int(i) => JsonVal::I64(i as i64),
        PrimV::UInt(u) => JsonVal::U64(u as u64),
        PrimV::PInt(u) => JsonVal::U64(u as u64),
        PrimV::Decimal(d) => JsonVal::Num(dec_render(d)),
        _ => JsonVal::Str(prim_render(p)),
    }
}

/// The JSON key a primitive takes as an extension value, derived from the
/// variant's name. Kept exhaustive in one place so that a new variant cannot
/// silently miss its key.
pub open spec fn prim_ext_name(p: PrimV) -> Seq<char> {
    match p {
        PrimV::Boolean(_) => "valueBoolean"@,
        PrimV::Int(_) => "valueInt"@,
        PrimV::UInt(_) => "valueUInt"@,
        PrimV::PInt(_) => "valuePInt"@,
        PrimV::Decimal(_) => "valueDecimal"@,
        PrimV::String(_) => "valueString"@,
        PrimV::Id(_) => "valueId"@,
        PrimV::Uri(_) => "valueUri"@,
        PrimV::Oid(_) => "valueOid"@,
        PrimV::Base64(_) => "valueBase64"@,
        PrimV::Instant(_) => "valueInstant"@,
        PrimV::Date(_) => "valueDate"@,
        PrimV::DateTime(_) => "valueDateTime"@,
        PrimV::Time(_) => "valueTime"@,
    }
}

/// Which primitives may stand as an extension value: every variant may.
pub open spec fn prim_valid_ext(p: PrimV) -> bool {
    match p {
        PrimV::Boolean(_) => true,
        PrimV::Int(_) => true,
        PrimV::UInt(_) => true,
        PrimV::PInt(_) => true,
        PrimV::Decimal(_) => true,
        PrimV::String(_) => true,
        PrimV::Id(_) => true,
        PrimV::Uri(_) => true,
        PrimV::Oid(_) => true,
        PrimV::Base64(_) => true,
        PrimV::Instant(_) => true,
        PrimV::Date(_) => true,
        PrimV::DateTime(_) => true,
        PrimV::Time(_) => true,
    }
}

impl Primitive {
    /// The canonical textual rendering.
    pub fn to_string(&self) -> (r: String)
        ensures
            r@ == prim_render(self@),
    {
        match self {
            Primitive::Boolean(b) => if *b {
                String::from_str("true")
            } else {
                String::from_str("false")
            },
            Primitive::Int(i) => i64_to_string(*i as i64),
            Primitive::UInt(u) => u64_to_string(*u as u64),
            Primitive::PInt(u) => u64_to_string(*u as u64),
            Primitive::Decimal(d) => d.to_string(),
            Primitive::String(s) => s.clone(),
            Primitive::Id(s) => s.clone(),
            Primitive::Uri(u) => u.to_string(),
            Primitive::Oid(u) => u.to_string(),
            Primitive::Base64(s) => s.clone(),
            Primitive::Instant(i) => i.to_string(),
            Primitive::Date(v) => v.to_string(),
            Primitive::DateTime(v) => v.to_string(),
            Primitive::Time(t) => t.to_string(),
        }
    }

    /// The JSON projection.
    pub fn to_json(&self) -> (r: Json)
        ensures
            r@ == prim_json(self@),
    {
        match self {
            Primitive::Boolean(b) => Json::Boolean(*b),
            Primitive::Int(i) => Json::I64(*i as i64),
            Primitive::UInt(u) => Json::U64(*u as u64),
            Primitive::PInt(u) => Json::U64(*u as u64),
            Primitive::Decimal(d) => Json::Num(d.to_string()),
            Primitive::String(s) => Json::Str(s.clone()),
            Primitive::Id(s) => Json::Str(s.clone()),
            Primitive::Uri(u) => Json::Str(u.to_string()),
            Primitive::Oid(u) => Json::Str(u.to_string()),
            Primitive::Base64(s) => Json::Str(s.clone()),
            Primitive::Instant(i) => Json::Str(i.to_string()),
            Primitive::Date(v) => Json::Str(v.to_string()),
            Primitive::DateTime(v) => Json::Str(v.to_string()),
            Primitive::Time(t) => Json::Str(t.to_string()),
        }
    }

    /// The JSON key this value takes as an extension value.
    pub fn extension_name(&self) -> (r: String)
        ensures
            r@ == prim_ext_name(self@),
    {
        match self {
            Primitive::Boolean(_) => String::from_str("valueBoolean"),
            Primitive::Int(_) => String::from_str("valueInt"),
            Primitive::UInt(_) => String::from_str("valueUInt"),
            Primitive::PInt(_) => String::from_str("valuePInt"),
            Primitive::Decimal(_) => String::from_str("valueDecimal"),
            Primitive::String(_) => String::from_str("valueString"),
            Primitive::Id(_) => String::from_str("valueId"),
            Primitive::Uri(_) => String::from_str("valueUri"),
            Primitive::Oid(_) => String::from_str("valueOid"),
            Primitive::Base64(_) => String::from_str("valueBase64"),
            Primitive::Instant(_) => String::from_str("valueInstant"),
            Primitive::Date(_) => String::from_str("valueDate"),
            Primitive::DateTime(_) => String::from_str("valueDateTime"),
            Primitive::Time(_) => String::from_str("valueTime"),
        }
    }

    /// Whether this value may stand as an extension value.
    pub fn valid_extension(&self) -> (r: bool)
        ensures
            r == prim_valid_ext(self@),
    {
        match self {
            Primitive::Boolean(_) => true,
            Primitive::Int(_) => true,
            Primitive::UInt(_) => true,
            Primitive::PInt(_) => true,
            Primitive::Decimal(_) => true,
            Primitive::String(_) => true,
            Primitive::Id(_) => true,
            Primitive::Uri(_) => true,
            Primitive::Oid(_) => true,
            Primitive::Base64(_) => true,
            Primitive::Instant(_) => true,
            Primitive::Date(_) => true,
            Primitive::DateTime(_) => true,
            Primitive::Time(_) => true,
        }
    }
}

impl From<bool> for Primitive {
    fn from(v: bool) -> (r: Self) {
        Primitive::Boolean(v)
    }
}

impl vstd::std_specs::convert::FromSpecImpl<bool> for Primitive {
    open spec fn obeys_from_spec() -> bool {
        true
    }

    open spec fn from_spec(v: bool) -> Self {
        Primitive::Boolean(v)
    }
}

impl From<i32> for Primitive {
    fn from(v: i32) -> (r: Self) {
        Primitive::Int(v)
    }
}

impl vstd::std_specs::convert::FromSpecImpl<i32> for Primitive {
    open spec fn obeys_from_spec() -> bool {
        true
    }

    open spec fn from_spec(v: i32) -> Self {
        Primitive::Int(v)
    }
}

impl From<u32> for Primitive {
    fn from(v: u32) -> (r: Self) {
        Primitive::UInt(v)
    }
}

impl vstd::std_specs::convert::FromSpecImpl<u32> for Primitive {
    open spec fn obeys_from_spec() -> bool {
        true
    }

    open spec fn from_spec(v: u32) -> Self {
        Primitive::UInt(v)
    }
}

impl From<Dec> for Primitive {
    fn from(v: Dec) -> (r: Self) {
        Primitive::Decimal(v)
    }
}

impl vstd::std_specs::convert::FromSpecImpl<Dec> for Primitive {
    open spec fn obeys_from_spec() -> bool {
        true
    }

    open spec fn from_spec(v: Dec) -> Self {
        Primitive::Decimal(v)
    }
}

impl From<String> for Primitive {
    fn from(v: String) -> (r: Self) {
        Primitive::String(v)
    }
}

impl vstd::std_specs::convert::FromSpecImpl<String> for Primitive {
    open spec fn obeys_from_spec() -> bool {
        true
    }

    open spec fn from_spec(v: String) -> Self {
        Primitive::String(v)
    }
}

impl From<Time> for Primitive {
    fn from(v: Time) -> (r: Self) {
        Primitive::Time(v)
    }
}

impl vstd::std_specs::convert::FromSpecImpl<Time> for Primitive {
    open spec fn obeys_from_spec() -> bool {
        true
    }

    open spec fn from_spec(v: Time) -> Self {
        Primitive::Time(v)
    }
}

impl From<Uri> for Primitive {
    fn from(v: Uri) -> (r: Self) {
        Primitive::Uri(v)
    }
}

impl vstd::std_specs::convert::FromSpecImpl<Uri> for Primitive {
    open spec fn obeys_from_spec() -> bool {
        true
    }

    open spec fn from_spec(v: Uri) -> Self {
        Primitive::Uri(v)
    }
}

impl From<Instant> for Primitive {
    fn from(v: Instant) -> (r: Self) {
        Primitive::Instant(v)
    }
}

impl vstd::std_specs::convert::FromSpecImpl<Instant> for Primitive {
    open spec fn obeys_from_spec() -> bool {
        true
    }

    open spec fn from_spec(v: Instant) -> Self {
        Primitive::Instant(v)
    }
}

impl<'a> From<&'a str> for Primitive {
    /// Plain text becomes a string primitive. A borrowed string cannot be
    /// copied in specification land, so this conversion carries no contract.
    fn from(v: &'a str) -> (r: Self) {
        Primitive::String(v.to_owned())
    }
}

impl<'a> vstd::std_specs::convert::FromSpecImpl<&'a str> for Primitive {
    open spec fn obeys_from_spec() -> bool {
        false
    }

    open spec fn from_spec(v: &'a str) -> Self {
        arbitrary()
    }
}

} // verus!
