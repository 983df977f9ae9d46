//! A schema wrapper with the familiar on/off configuration surface.
//!
//! Each switch installs or removes the producer behind one conventional
//! output key of the standard schema.

use vstd::prelude::*;

use crate::layer::{
    fields_key, filename_key, flat_insert, flat_remove, keyed_installed, keyed_remove, level_key,
    line_number_key, span_key, spans_key, target_key, thread_id_key, thread_name_key,
    timestamp_key, CachedQuery, EventQuery, FlatSchemaKey, JsonLayer, JsonValue, RawQuery,
    SchemaKey, SpanQuery,
};

verus! {

fn key_fields() -> (k: Vec<u8>)
    ensures
        k@ == fields_key(),
{
    let mut k: Vec<u8> = Vec::new();
    k.push(0x66);
    k.push(0x69);
    k.push(0x65);
    k.push(0x6c);
    k.push(0x64);
    k.push(0x73);
    proof {
        assert(k@ =~= fields_key());
    }
    k
}

fn key_level() -> (k: Vec<u8>)
    ensures
        k@ == level_key(),
{
    let mut k: Vec<u8> = Vec::new();
    k.push(0x6c);
    k.push(0x65);
    k.push(0x76);
    k.push(0x65);
    k.push(0x6c);
    proof {
        assert(k@ =~= level_key());
    }
    k
}

fn key_span() -> (k: Vec<u8>)
    ensures
        k@ == span_key(),
{
    let mut k: Vec<u8> = Vec::new();
    k.push(0x73);
    k.push(0x70);
    k.push(0x61);
    k.push(0x6e);
    proof {
        assert(k@ =~= span_key());
    }
    k
}

fn key_spans() -> (k: Vec<u8>)
    ensures
        k@ == spans_key(),
{
    let mut k: Vec<u8> = Vec::new();
    k.push(0x73);
    k.push(0x70);
    k.push(0x61);
    k.push(0x6e);
    k.push(0x73);
    proof {
        assert(k@ =~= spans_key());
    }
    k
}

fn key_target() -> (k: Vec<u8>)
    ensures
        k@ == target_key(),
{
    let mut k: Vec<u8> = Vec::new();
    k.push(0x74);
    k.push(0x61);
    k.push(0x72);
    k.push(0x67);
    k.push(0x65);
    k.push(0x74);
    proof {
        assert(k@ =~= target_key());
    }
    k
}

fn key_timestamp() -> (k: Vec<u8>)
    ensures
        k@ == timestamp_key(),
{
    let mut k: Vec<u8> = Vec::new();
    k.push(0x74);
    k.push(0x69);
    k.push(0x6d);
    k.push(0x65);
    k.push(0x73);
    k.push(0x74);
    k.push(0x61);
    k.push(0x6d);
    k.push(0x70);
    proof {
        assert(k@ =~= timestamp_key());
    }
    k
}

fn key_filename() -> (k: Vec<u8>)
    ensures
        k@ == filename_key(),
{
    let mut k: Vec<u8> = Vec::new();
    k.push(0x66);
    k.push(0x69);
    k.push(0x6c);
    k.push(0x65);
    k.push(0x6e);
    k.push(0x61);
    k.push(0x6d);
    k.push(0x65);
    proof {
        assert(k@ =~= filename_key());
    }
    k
}

fn key_line_number() -> (k: Vec<u8>)
    ensures
        k@ == line_number_key(),
{
    let mut k: Vec<u8> = Vec::new();
    k.push(0x6c);
    k.push(0x69);
    k.push(0x6e);
    k.push(0x65);
    k.push(0x5f);
    k.push(0x6e);
    k.push(0x75);
    k.push(0x6d);
    k.push(0x62);
    k.push(0x65);
    k.push(0x72);
    proof {
        assert(k@ =~= line_number_key());
    }
    k
}

fn key_thread_name() -> (k: Vec<u8>)
    ensures
        k@ == thread_name_key(),
{
    let mut k: Vec<u8> = Vec::new();
    k.push(0x74);
    k.push(0x68);
    k.push(0x72);
    k.push(0x65);
    k.push(0x61);
    k.push(0x64);
    k.push(0x4e);
    k.push(0x61);
    k.push(0x6d);
    k.push(0x65);
    proof {
        assert(k@ =~= thread_name_key());
    }
    k
}

fn key_thread_id() -> (k: Vec<u8>)
    ensures
        k@ == thread_id_key(),
{
    let mut k: Vec<u8> = Vec::new();
    k.push(0x74);
    k.push(0x68);
    k.push(0x72);
    k.push(0x65);
    k.push(0x61);
    k.push(0x64);
    k.push(0x49);
    k.push(0x64);
    proof {
        assert(k@ =~= thread_id_key());
    }
    k
}

/// A schema with the conventional keys, configured by switches.
pub struct Layer {
    inner: JsonLayer,
}

impl Layer {
    /// The wrapped schema.
    pub closed spec fn inner_view(self) -> JsonLayer {
        self.inner
    }

    /// Mutably borrows the wrapped schema, for additions beyond the
    /// switches offered here.
    pub fn inner_layer_mut(&mut self) -> (r: &mut JsonLayer)
        ensures
            *r == old(self).inner_view(),
            final(self).inner_view() == *final(r),
    {
        &mut self.inner
    }

    /// Borrows the wrapped schema.
    pub fn inner_layer(&self) -> (r: &JsonLayer)
        ensures
            *r == self.inner_view(),
    {
        &self.inner
    }

    /// Sets whether internal errors are reported to a fallback stream.
    pub fn log_internal_errors(self, flag: bool) -> (r: Layer)
        ensures
            r.inner_view().keyed_view() == self.inner_view().keyed_view(),
            r.inner_view().flat_view() == self.inner_view().flat_view(),
            r.inner_view().errors_logged() == flag,
    {
        let mut s = self;
        s.inner.log_internal_errors(flag);
        s
    }

    /// Chooses between event fields nested under their key and event
    /// fields flattened to the top level.
    pub fn flatten_event(self, flatten: bool) -> (r: Layer)
        ensures
            r.inner_view().errors_logged() == self.inner_view().errors_logged(),
            flatten ==> r.inner_view().keyed_view() == keyed_remove(
                self.inner_view().keyed_view(),
                fields_key(),
            ) && r.inner_view().flat_view() == flat_insert(
                self.inner_view().flat_view(),
                (FlatSchemaKey::FlattenedEvent, JsonValue::DynamicFromEvent(EventQuery::Fields)),
            ),
            !flatten ==> r.inner_view().flat_view() == flat_remove(
                self.inner_view().flat_view(),
                FlatSchemaKey::FlattenedEvent,
            ) && keyed_installed(
                self.inner_view().keyed_view(),
                r.inner_view().keyed_view(),
                fields_key(),
                JsonValue::DynamicFromEvent(EventQuery::Fields),
            ),
    {
        let mut s = self;
        if flatten {
            s.inner.remove_field_bytes(key_fields());
            s.inner.with_flattened_event();
        } else {
            s.inner.remove_flattened_field(&FlatSchemaKey::FlattenedEvent);
            s.inner.insert_keyed(
                SchemaKey::Static(key_fields()),
                JsonValue::DynamicFromEvent(EventQuery::Fields),
            );
        }
        s
    }

    /// Turns the nested current-span object on or off.
    pub fn with_current_span(self, display: bool) -> (r: Layer)
        ensures
            r.inner_view().errors_logged() == self.inner_view().errors_logged(),
            r.inner_view().flat_view() == self.inner_view().flat_view(),
            display ==> keyed_installed(
                self.inner_view().keyed_view(),
                r.inner_view().keyed_view(),
                span_key(),
                JsonValue::DynamicCachedFromSpan(CachedQuery::CurrentSpan),
            ),
            !display ==> r.inner_view().keyed_view() == keyed_remove(
                self.inner_view().keyed_view(),
                span_key(),
            ),
    {
        let mut s = self;
        if display {
            s.inner.insert_keyed(
                SchemaKey::Static(key_span()),
                JsonValue::DynamicCachedFromSpan(CachedQuery::CurrentSpan),
            );
        } else {
            s.inner.remove_field_bytes(key_span());
        }
        s
    }

    /// Turns the nested span list on or off.
    pub fn with_span_list(self, display: bool) -> (r: Layer)
        ensures
            r.inner_view().errors_logged() == self.inner_view().errors_logged(),
            r.inner_view().flat_view() == self.inner_view().flat_view(),
            display ==> keyed_installed(
                self.inner_view().keyed_view(),
                r.inner_view().keyed_view(),
                spans_key(),
                JsonValue::DynamicCachedFromSpan(CachedQuery::SpanList),
            ),
            !display ==> r.inner_view().keyed_view() == keyed_remove(
                self.inner_view().keyed_view(),
                spans_key(),
            ),
    {
        let mut s = self;
        if display {
            s.inner.insert_keyed(
                SchemaKey::Static(key_spans()),
                JsonValue::DynamicCachedFromSpan(CachedQuery::SpanList),
            );
        } else {
            s.inner.remove_field_bytes(key_spans());
        }
        s
    }

    /// Replaces the span list with one object merging all enclosing
    /// spans' fields, a span nearer the leaf overriding one nearer the
    /// root; or removes it.
    pub fn with_flat_span_list(self, flatten: bool) -> (r: Layer)
        ensures
            r.inner_view().errors_logged() == self.inner_view().errors_logged(),
            r.inner_view().flat_view() == self.inner_view().flat_view(),
            flatten ==> keyed_installed(
                self.inner_view().keyed_view(),
                r.inner_view().keyed_view(),
                spans_key(),
                JsonValue::DynamicFromSpan(SpanQuery::MergedFields),
            ),
            !flatten ==> r.inner_view().keyed_view() == keyed_remove(
                self.inner_view().keyed_view(),
                spans_key(),
            ),
    {
        let mut s = self;
        if flatten {
            s.inner.insert_keyed(
                SchemaKey::Static(key_spans()),
                JsonValue::DynamicFromSpan(SpanQuery::MergedFields),
            );
        } else {
            s.inner.remove_field_bytes(key_spans());
        }
        s
    }

    /// Moves the current span's fields to the top level, or back under
    /// their key.
    pub fn flatten_current_span_on_top_level(self, flatten: bool) -> (r: Layer)
        ensures
            r.inner_view().errors_logged() == self.inner_view().errors_logged(),
            flatten ==> r.inner_view().keyed_view() == keyed_remove(
                self.inner_view().keyed_view(),
                span_key(),
            ) && r.inner_view().flat_view() == flat_insert(
                self.inner_view().flat_view(),
                (
                    FlatSchemaKey::FlattenedCurrentSpan,
                    JsonValue::DynamicCachedFromSpan(CachedQuery::CurrentSpan),
                ),
            ),
            !flatten ==> r.inner_view().flat_view() == flat_remove(
                self.inner_view().flat_view(),
                FlatSchemaKey::FlattenedCurrentSpan,
            ) && keyed_installed(
                self.inner_view().keyed_view(),
                r.inner_view().keyed_view(),
                span_key(),
                JsonValue::DynamicCachedFromSpan(CachedQuery::CurrentSpan),
            ),
    {
        let mut s = self;
        if flatten {
            s.inner.remove_field_bytes(key_span());
            s.inner.with_top_level_flattened_current_span();
        } else {
            s.inner.remove_flattened_field(&FlatSchemaKey::FlattenedCurrentSpan);
            s.inner.insert_keyed(
                SchemaKey::Static(key_span()),
                JsonValue::DynamicCachedFromSpan(CachedQuery::CurrentSpan),
            );
        }
        s
    }

    /// Moves the merged fields of all enclosing spans to the top level,
    /// or restores the nested span list.
    pub fn flatten_span_list_on_top_level(self, flatten: bool) -> (r: Layer)
        ensures
            r.inner_view().errors_logged() == self.inner_view().errors_logged(),
            flatten ==> r.inner_view().keyed_view() == keyed_remove(
                self.inner_view().keyed_view(),
                spans_key(),
            ) && r.inner_view().flat_view() == flat_insert(
                self.inner_view().flat_view(),
                (
                    FlatSchemaKey::FlattenedSpanList,
                    JsonValue::DynamicFromSpan(SpanQuery::MergedFields),
                ),
            ),
            !flatten ==> r.inner_view().flat_view() == flat_remove(
                self.inner_view().flat_view(),
                FlatSchemaKey::FlattenedSpanList,
            ) && keyed_installed(
                self.inner_view().keyed_view(),
                r.inner_view().keyed_view(),
                spans_key(),
                JsonValue::DynamicCachedFromSpan(CachedQuery::SpanList),
            ),
    {
        let mut s = self;
        if flatten {
            s.inner.remove_field_bytes(key_spans());
            s.inner.with_top_level_flattened_span_list();
        } else {
            s.inner.remove_flattened_field(&FlatSchemaKey::FlattenedSpanList);
            s.inner.insert_keyed(
                SchemaKey::Static(key_spans()),
                JsonValue::DynamicCachedFromSpan(CachedQuery::SpanList),
            );
        }
        s
    }

    /// Emits timestamps under their conventional key.
    pub fn with_timer(self) -> (r: Layer)
        ensures
            r.inner_view().errors_logged() == self.inner_view().errors_logged(),
            r.inner_view().flat_view() == self.inner_view().flat_view(),
            keyed_installed(
                self.inner_view().keyed_view(),
                r.inner_view().keyed_view(),
                timestamp_key(),
                JsonValue::DynamicFromEvent(EventQuery::Timestamp),
            ),
    {
        let mut s = self;
        s.inner.insert_keyed(
            SchemaKey::Static(key_timestamp()),
            JsonValue::DynamicFromEvent(EventQuery::Timestamp),
        );
        s
    }

    /// Stops emitting timestamps.
    pub fn without_time(self) -> (r: Layer)
        ensures
            r.inner_view().errors_logged() == self.inner_view().errors_logged(),
            r.inner_view().flat_view() == self.inner_view().flat_view(),
            r.inner_view().keyed_view() == keyed_remove(
                self.inner_view().keyed_view(),
                timestamp_key(),
            ),
    {
        let mut s = self;
        s.inner.remove_field_bytes(key_timestamp());
        s
    }

    /// Turns the target on or off.
    pub fn with_target(self, display: bool) -> (r: Layer)
        ensures
            r.inner_view().errors_logged() == self.inner_view().errors_logged(),
            r.inner_view().flat_view() == self.inner_view().flat_view(),
            display ==> keyed_installed(
                self.inner_view().keyed_view(),
                r.inner_view().keyed_view(),
                target_key(),
                JsonValue::DynamicRawFromEvent(RawQuery::Target),
            ),
            !display ==> r.inner_view().keyed_view() == keyed_remove(
                self.inner_view().keyed_view(),
                target_key(),
            ),
    {
        let mut s = self;
        if display {
            s.inner.insert_keyed(
                SchemaKey::Static(key_target()),
                JsonValue::DynamicRawFromEvent(RawQuery::Target),
            );
        } else {
            s.inner.remove_field_bytes(key_target());
        }
        s
    }

    /// Turns the source file on or off.
    pub fn with_file(self, display: bool) -> (r: Layer)
        ensures
            r.inner_view().errors_logged() == self.inner_view().errors_logged(),
            r.inner_view().flat_view() == self.inner_view().flat_view(),
            display ==> keyed_installed(
                self.inner_view().keyed_view(),
                r.inner_view().keyed_view(),
                filename_key(),
                JsonValue::DynamicRawFromEvent(RawQuery::File),
            ),
            !display ==> r.inner_view().keyed_view() == keyed_remove(
                self.inner_view().keyed_view(),
                filename_key(),
            ),
    {
        let mut s = self;
        if display {
            s.inner.insert_keyed(
                SchemaKey::Static(key_filename()),
                JsonValue::DynamicRawFromEvent(RawQuery::File),
            );
        } else {
            s.inner.remove_field_bytes(key_filename());
        }
        s
    }

    /// Turns the source line number on or off.
    pub fn with_line_number(self, display: bool) -> (r: Layer)
        ensures
            r.inner_view().errors_logged() == self.inner_view().errors_logged(),
            r.inner_view().flat_view() == self.inner_view().flat_view(),
            display ==> keyed_installed(
                self.inner_view().keyed_view(),
                r.inner_view().keyed_view(),
                line_number_key(),
                JsonValue::DynamicRawFromEvent(RawQuery::LineNumber),
            ),
            !display ==> r.inner_view().keyed_view() == keyed_remove(
                self.inner_view().keyed_view(),
                line_number_key(),
            ),
    {
        let mut s = self;
        if display {
            s.inner.insert_keyed(
                SchemaKey::Static(key_line_number()),
                JsonValue::DynamicRawFromEvent(RawQuery::LineNumber),
            );
        } else {
            s.inner.remove_field_bytes(key_line_number());
        }
        s
    }

    /// Turns the level on or off.
    pub fn with_level(self, display: bool) -> (r: Layer)
        ensures
            r.inner_view().errors_logged() == self.inner_view().errors_logged(),
            r.inner_view().flat_view() == self.inner_view().flat_view(),
            display ==> keyed_installed(
                self.inner_view().keyed_view(),
                r.inner_view().keyed_view(),
                level_key(),
                JsonValue::DynamicRawFromEvent(RawQuery::Level),
            ),
            !display ==> r.inner_view().keyed_view() == keyed_remove(
                self.inner_view().keyed_view(),
                level_key(),
            ),
    {
        let mut s = self;
        if display {
            s.inner.insert_keyed(
                SchemaKey::Static(key_level()),
                JsonValue::DynamicRawFromEvent(RawQuery::Level),
            );
        } else {
            s.inner.remove_field_bytes(key_level());
        }
        s
    }

    /// Turns the thread name on or off.
    pub fn with_thread_names(self, display: bool) -> (r: Layer)
        ensures
            r.inner_view().errors_logged() == self.inner_view().errors_logged(),
            r.inner_view().flat_view() == self.inner_view().flat_view(),
            display ==> keyed_installed(
                self.inner_view().keyed_view(),
                r.inner_view().keyed_view(),
                thread_name_key(),
                JsonValue::DynamicRawFromEvent(RawQuery::ThreadName),
            ),
            !display ==> r.inner_view().keyed_view() == keyed_remove(
                self.inner_view().keyed_view(),
                thread_name_key(),
            ),
    {
        let mut s = self;
        if display {
            s.inner.insert_keyed(
                SchemaKey::Static(key_thread_name()),
                JsonValue::DynamicRawFromEvent(RawQuery::ThreadName),
            );
        } else {
            s.inner.remove_field_bytes(key_thread_name());
        }
        s
    }

    /// Turns the thread identifier on or off.
    pub fn with_thread_ids(self, display: bool) -> (r: Layer)
        ensures
            r.inner_view().errors_logged() == self.inner_view().errors_logged(),
            r.inner_view().flat_view() == self.inner_view().flat_view(),
            display ==> keyed_installed(
                self.inner_view().keyed_view(),
                r.inner_view().keyed_view(),
                thread_id_key(),
                JsonValue::DynamicRawFromEvent(RawQuery::ThreadId),
            ),
            !display ==> r.inner_view().keyed_view() == keyed_remove(
                self.inner_view().keyed_view(),
                thread_id_key(),
            ),
    {
        let mut s = self;
        if display {
            s.inner.insert_keyed(
                SchemaKey::Static(key_thread_id()),
                JsonValue::DynamicRawFromEvent(RawQuery::ThreadId),
            );
        } else {
            s.inner.remove_field_bytes(key_thread_id());
        }
        s
    }
}

impl Default for Layer {
    /// The standard schema.
    fn default() -> (d: Layer)
        ensures
            d.inner_view().is_standard(),
    {
        Layer { inner: JsonLayer::standard() }
    }
}

} // verus!
