//! A typed in-memory document model for record-style structured data together
//! with a deterministic encoder that projects the model into a JSON value
//! tree, preserving exact decimal precision, partial-precision dates and
//! times, and out-of-band metadata (identifiers and extensions) attached to
//! otherwise-primitive values.

pub mod render;
pub mod decimal;
pub mod time;
pub mod stamp;
pub mod vardate;
pub mod uri;
pub mod json;
pub mod primitive;
pub mod element;
pub mod extension;
pub mod resource;
