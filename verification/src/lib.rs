//! A structured-logging JSON formatter core.
//!
//! Spans carry typed key/value fields that may be recorded over their
//! lifetime; events are rendered as one JSON object per line, merging the
//! event's own fields with the cached serializations of its enclosing spans
//! according to a configurable schema.

use vstd::prelude::*;

pub mod bunyan;
mod bytes;
mod cursor;
mod escape;
mod event;
mod fields;
pub mod fmt;
mod laws;
mod layer;
mod num;
mod serde;
mod validity;
mod value;
mod visitor;

pub use cursor::Cursor;
pub use escape::escape_into;
pub use event::EventData;
pub use fields::{FieldMap, FieldStore};
pub use laws::{
    lemma_flatten_empty_event, lemma_flatten_empty_merged, lemma_flatten_empty_omitted,
    lemma_fresh_cache_read, lemma_insert_keeps_sorted, lemma_keyed_insert_keeps_sorted,
    lemma_keyed_none_omitted, lemma_lookup_insert, lemma_record_new_value,
    lemma_record_same_value, lemma_render_deterministic, lemma_render_line_equiv,
    lemma_span_list_order, lemma_span_scoped_skipped,
};
pub use layer::{
    CachedQuery, EventQuery, FlatSchemaKey, JsonLayer, JsonValue, RawQuery, SchemaKey, SpanQuery,
};
pub use num::check_number_token;
pub use serde::SerdeMapVisitor;
pub use validity::{
    lemma_escape_string_body_ok, lemma_i64_token, lemma_line_newline_framing, lemma_u64_token,
};
pub use value::Value;
pub use visitor::JsonVisitor;

verus! {

} // verus!
