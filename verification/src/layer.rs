//! The schema: an ordered mapping from output key to field producer.
//!
//! Keyed producers render under their key, in key order. Flattened
//! producers splice the members of an object value at the top level of
//! the output and are rendered after the keyed entries, in the order of
//! their markers.

use vstd::prelude::*;
use vstd::string::{StrSliceExecFns, StringSliceAdditionalSpecFns};

use crate::bytes::{cmp_bytes, lex_lt};
use crate::value::Value;

verus! {

/// A keyed schema position.
pub enum SchemaKey {
    Static(Vec<u8>),
}

impl SchemaKey {
    /// The key's bytes.
    pub open spec fn bytes(self) -> Seq<u8> {
        match self {
            SchemaKey::Static(v) => v@,
        }
    }
}

/// A flattened schema position.
pub enum FlatSchemaKey {
    Uuid(u128),
    FlattenedEvent,
    FlattenedCurrentSpan,
    FlattenedSpanList,
}

/// The rank that orders flattened positions.
pub open spec fn flat_rank(k: FlatSchemaKey) -> (int, int) {
    match k {
        FlatSchemaKey::Uuid(u) => (0, u as int),
        FlatSchemaKey::FlattenedEvent => (1, 0),
        FlatSchemaKey::FlattenedCurrentSpan => (2, 0),
        FlatSchemaKey::FlattenedSpanList => (3, 0),
    }
}

/// Strict order on flattened positions.
pub open spec fn flat_lt(a: FlatSchemaKey, b: FlatSchemaKey) -> bool {
    flat_rank(a).0 < flat_rank(b).0 || (flat_rank(a).0 == flat_rank(b).0 && flat_rank(a).1
        < flat_rank(b).1)
}

/// What a producer reads from the event itself.
pub enum EventQuery {
    Timestamp,
    Fields,
    Token(u64),
}

/// What a producer reads from the nearest enclosing span.
pub enum SpanQuery {
    MergedFields,
    Token(u64),
}

/// Which cached span rendering a producer splices.
pub enum CachedQuery {
    CurrentSpan,
    SpanList,
}

/// Which event detail a producer writes as a raw escaped token.
pub enum RawQuery {
    Target,
    Level,
    File,
    LineNumber,
    ThreadName,
    ThreadId,
}

/// A field producer.
pub enum JsonValue {
    Serde(Value),
    DynamicFromEvent(EventQuery),
    DynamicFromSpan(SpanQuery),
    DynamicCachedFromSpan(CachedQuery),
    DynamicRawFromEvent(RawQuery),
}

/// Insertion into the keyed schema, ordered by key bytes.
pub open spec fn keyed_insert(m: Seq<(SchemaKey, JsonValue)>, kv: (SchemaKey, JsonValue)) -> Seq<
    (SchemaKey, JsonValue),
>
    decreases m.len(),
{
    if m.len() == 0 {
        seq![kv]
    } else if lex_lt(m.first().0.bytes(), kv.0.bytes()) {
        seq![m.first()] + keyed_insert(m.drop_first(), kv)
    } else if m.first().0.bytes() == kv.0.bytes() {
        seq![kv] + m.drop_first()
    } else {
        seq![kv] + m
    }
}

/// Removal of the first entry with the given key, if any.
pub open spec fn keyed_remove(m: Seq<(SchemaKey, JsonValue)>, k: Seq<u8>) -> Seq<
    (SchemaKey, JsonValue),
>
    decreases m.len(),
{
    if m.len() == 0 {
        m
    } else if m.first().0.bytes() == k {
        m.drop_first()
    } else {
        seq![m.first()] + keyed_remove(m.drop_first(), k)
    }
}

/// Insertion into the flattened schema, ordered by marker rank.
pub open spec fn flat_insert(m: Seq<(FlatSchemaKey, JsonValue)>, kv: (FlatSchemaKey, JsonValue)) -> Seq<
    (FlatSchemaKey, JsonValue),
>
    decreases m.len(),
{
    if m.len() == 0 {
        seq![kv]
    } else if flat_lt(m.first().0, kv.0) {
        seq![m.first()] + flat_insert(m.drop_first(), kv)
    } else if m.first().0 == kv.0 {
        seq![kv] + m.drop_first()
    } else {
        seq![kv] + m
    }
}

/// Removal of the first entry with the given marker, if any.
pub open spec fn flat_remove(m: Seq<(FlatSchemaKey, JsonValue)>, k: FlatSchemaKey) -> Seq<
    (FlatSchemaKey, JsonValue),
>
    decreases m.len(),
{
    if m.len() == 0 {
        m
    } else if m.first().0 == k {
        m.drop_first()
    } else {
        seq![m.first()] + flat_remove(m.drop_first(), k)
    }
}

/// `m1` is `m0` with the producer `p` installed under a key with bytes
/// `k`.
pub open spec fn keyed_installed(
    m0: Seq<(SchemaKey, JsonValue)>,
    m1: Seq<(SchemaKey, JsonValue)>,
    k: Seq<u8>,
    p: JsonValue,
) -> bool {
    exists|kv: (SchemaKey, JsonValue)|
        kv.0.bytes() == k && kv.1 == p && m1 == #[trigger] keyed_insert(m0, kv)
}

/// Compares two flattened markers; returns -1, 0 or 1 by rank.
fn cmp_flat(a: &FlatSchemaKey, b: &FlatSchemaKey) -> (r: i8)
    ensures
        r == -1 <==> flat_lt(*a, *b),
        r == 0 <==> *a == *b,
        r == 1 <==> flat_lt(*b, *a),
{
    let ra: u8 = match a {
        FlatSchemaKey::Uuid(_) => 0,
        FlatSchemaKey::FlattenedEvent => 1,
        FlatSchemaKey::FlattenedCurrentSpan => 2,
        FlatSchemaKey::FlattenedSpanList => 3,
    };
    let rb: u8 = match b {
        FlatSchemaKey::Uuid(_) => 0,
        FlatSchemaKey::FlattenedEvent => 1,
        FlatSchemaKey::FlattenedCurrentSpan => 2,
        FlatSchemaKey::FlattenedSpanList => 3,
    };
    if ra < rb {
        -1
    } else if ra > rb {
        1
    } else {
        match (a, b) {
            (FlatSchemaKey::Uuid(x), FlatSchemaKey::Uuid(y)) => {
                if *x < *y {
                    -1
                } else if *x > *y {
                    1
                } else {
                    0
                }
            },
            _ => 0,
        }
    }
}

/// Relies on uuid::Uuid::new_v4, a randomly generated identifier, used
/// only as a fresh key for an unnamed flattened entry. Nothing is
/// promised of the value.
#[verifier::external_body]
fn fresh_uuid() -> u128 {
    uuid::Uuid::new_v4().as_u128()
}

/// The key the standard schema prints event fields under.
pub open spec fn fields_key() -> Seq<u8> {
    seq![0x66u8, 0x69u8, 0x65u8, 0x6cu8, 0x64u8, 0x73u8]
}

/// The key the standard schema prints the level under.
pub open spec fn level_key() -> Seq<u8> {
    seq![0x6cu8, 0x65u8, 0x76u8, 0x65u8, 0x6cu8]
}

/// The key the standard schema prints the current span under.
pub open spec fn span_key() -> Seq<u8> {
    seq![0x73u8, 0x70u8, 0x61u8, 0x6eu8]
}

/// The key the standard schema prints the span list under.
pub open spec fn spans_key() -> Seq<u8> {
    seq![0x73u8, 0x70u8, 0x61u8, 0x6eu8, 0x73u8]
}

/// The key the standard schema prints the target under.
pub open spec fn target_key() -> Seq<u8> {
    seq![0x74u8, 0x61u8, 0x72u8, 0x67u8, 0x65u8, 0x74u8]
}

/// The key the standard schema prints the timestamp under.
pub open spec fn timestamp_key() -> Seq<u8> {
    seq![0x74u8, 0x69u8, 0x6du8, 0x65u8, 0x73u8, 0x74u8, 0x61u8, 0x6du8, 0x70u8]
}

/// The key the source file is printed under.
pub open spec fn filename_key() -> Seq<u8> {
    seq![0x66u8, 0x69u8, 0x6cu8, 0x65u8, 0x6eu8, 0x61u8, 0x6du8, 0x65u8]
}

/// The key the source line number is printed under.
pub open spec fn line_number_key() -> Seq<u8> {
    seq![0x6cu8, 0x69u8, 0x6eu8, 0x65u8, 0x5fu8, 0x6eu8, 0x75u8, 0x6du8, 0x62u8, 0x65u8, 0x72u8]
}

/// The key the thread name is printed under.
pub open spec fn thread_name_key() -> Seq<u8> {
    seq![0x74u8, 0x68u8, 0x72u8, 0x65u8, 0x61u8, 0x64u8, 0x4eu8, 0x61u8, 0x6du8, 0x65u8]
}

/// The key the thread identifier is printed under.
pub open spec fn thread_id_key() -> Seq<u8> {
    seq![0x74u8, 0x68u8, 0x72u8, 0x65u8, 0x61u8, 0x64u8, 0x49u8, 0x64u8]
}

/// The schema a log line is rendered from.
pub struct JsonLayer {
    keyed_values: Vec<(SchemaKey, JsonValue)>,
    flattened_values: Vec<(FlatSchemaKey, JsonValue)>,
    log_internal_errors: bool,
}

impl JsonLayer {
    /// The keyed entries, in output order.
    pub closed spec fn keyed_view(self) -> Seq<(SchemaKey, JsonValue)> {
        self.keyed_values@
    }

    /// The flattened entries, in output order.
    pub closed spec fn flat_view(self) -> Seq<(FlatSchemaKey, JsonValue)> {
        self.flattened_values@
    }

    /// Whether internal errors are reported to a fallback stream.
    pub closed spec fn errors_logged(self) -> bool {
        self.log_internal_errors
    }

    /// Creates a schema with no entries.
    pub fn empty() -> (l: JsonLayer)
        ensures
            l.keyed_view() == Seq::<(SchemaKey, JsonValue)>::empty(),
            l.flat_view() == Seq::<(FlatSchemaKey, JsonValue)>::empty(),
            !l.errors_logged(),
    {
        let l = JsonLayer {
            keyed_values: Vec::new(),
            flattened_values: Vec::new(),
            log_internal_errors: false,
        };
        proof {
            assert(l.keyed_view() =~= Seq::<(SchemaKey, JsonValue)>::empty());
            assert(l.flat_view() =~= Seq::<(FlatSchemaKey, JsonValue)>::empty());
        }
        l
    }

    /// The standard schema: event fields, level, current span, span
    /// list, target and timestamp, each under its usual key, nothing
    /// flattened.
    pub open spec fn is_standard(self) -> bool {
        &&& self.flat_view() == Seq::<(FlatSchemaKey, JsonValue)>::empty()
        &&& !self.errors_logged()
        &&& self.keyed_view().len() == 6
        &&& self.keyed_view()[0].0.bytes() == fields_key()
        &&& self.keyed_view()[0].1 == JsonValue::DynamicFromEvent(EventQuery::Fields)
        &&& self.keyed_view()[1].0.bytes() == level_key()
        &&& self.keyed_view()[1].1 == JsonValue::DynamicRawFromEvent(RawQuery::Level)
        &&& self.keyed_view()[2].0.bytes() == span_key()
        &&& self.keyed_view()[2].1 == JsonValue::DynamicCachedFromSpan(CachedQuery::CurrentSpan)
        &&& self.keyed_view()[3].0.bytes() == spans_key()
        &&& self.keyed_view()[3].1 == JsonValue::DynamicCachedFromSpan(CachedQuery::SpanList)
        &&& self.keyed_view()[4].0.bytes() == target_key()
        &&& self.keyed_view()[4].1 == JsonValue::DynamicRawFromEvent(RawQuery::Target)
        &&& self.keyed_view()[5].0.bytes() == timestamp_key()
        &&& self.keyed_view()[5].1 == JsonValue::DynamicFromEvent(EventQuery::Timestamp)
    }

    /// Builds the standard schema.
    pub fn standard() -> (l: JsonLayer)
        ensures
            l.is_standard(),
    {
        let mut entries: Vec<(SchemaKey, JsonValue)> = Vec::new();
        let mut k: Vec<u8> = Vec::new();
        k.push(0x66);
        k.push(0x69);
        k.push(0x65);
        k.push(0x6c);
        k.push(0x64);
        k.push(0x73);
        proof {
            assert(k@ =~= fields_key());
        }
        entries.push((SchemaKey::Static(k), JsonValue::DynamicFromEvent(EventQuery::Fields)));
        let mut k: Vec<u8> = Vec::new();
        k.push(0x6c);
        k.push(0x65);
        k.push(0x76);
        k.push(0x65);
        k.push(0x6c);
        proof {
            assert(k@ =~= level_key());
        }
        entries.push((SchemaKey::Static(k), JsonValue::DynamicRawFromEvent(RawQuery::Level)));
        let mut k: Vec<u8> = Vec::new();
        k.push(0x73);
        k.push(0x70);
        k.push(0x61);
        k.push(0x6e);
        proof {
            assert(k@ =~= span_key());
        }
        entries.push(
            (SchemaKey::Static(k), JsonValue::DynamicCachedFromSpan(CachedQuery::CurrentSpan)),
        );
        let mut k: Vec<u8> = Vec::new();
        k.push(0x73);
        k.push(0x70);
        k.push(0x61);
        k.push(0x6e);
        k.push(0x73);
        proof {
            assert(k@ =~= spans_key());
        }
        entries.push(
            (SchemaKey::Static(k), JsonValue::DynamicCachedFromSpan(CachedQuery::SpanList)),
        );
        let mut k: Vec<u8> = Vec::new();
        k.push(0x74);
        k.push(0x61);
        k.push(0x72);
        k.push(0x67);
        k.push(0x65);
        k.push(0x74);
        proof {
            assert(k@ =~= target_key());
        }
        entries.push((SchemaKey::Static(k), JsonValue::DynamicRawFromEvent(RawQuery::Target)));
        let mut k: Vec<u8> = Vec::new();
        k.push(0x74);
        k.push(0x69);
        k.push(0x6d);
        k.push(0x65);
        k.push(0x73);
        k.push(0x74);
        k.push(0x61);
        k.push(0x6d);
        k.push(0x70);
        proof {
            assert(k@ =~= timestamp_key());
        }
        entries.push((SchemaKey::Static(k), JsonValue::DynamicFromEvent(EventQuery::Timestamp)));
        let l = JsonLayer {
            keyed_values: entries,
            flattened_values: Vec::new(),
            log_internal_errors: false,
        };
        proof {
            assert(l.flat_view() =~= Seq::<(FlatSchemaKey, JsonValue)>::empty());
        }
        l
    }

    /// Sets whether internal errors are reported to a fallback stream.
    pub fn log_internal_errors(&mut self, flag: bool)
        ensures
            final(self).keyed_view() == old(self).keyed_view(),
            final(self).flat_view() == old(self).flat_view(),
            final(self).errors_logged() == flag,
    {
        self.log_internal_errors = flag;
    }

    /// Whether internal errors are reported to a fallback stream.
    pub fn logs_internal_errors(&self) -> (r: bool)
        ensures
            r == self.errors_logged(),
    {
        self.log_internal_errors
    }

    /// Installs a producer under the given key, replacing any producer
    /// the key held.
    pub fn add_object(&mut self, key: &str, value: JsonValue)
        ensures
            final(self).flat_view() == old(self).flat_view(),
            final(self).errors_logged() == old(self).errors_logged(),
            keyed_installed(
                old(self).keyed_view(),
                final(self).keyed_view(),
                key.spec_bytes(),
                value,
            ),
    {
        let kb = key.as_bytes_vec();
        self.insert_keyed(SchemaKey::Static(kb), value);
    }

    /// Installs a producer under an already built key.
    pub(crate) fn insert_keyed(&mut self, key: SchemaKey, value: JsonValue)
        ensures
            final(self).flat_view() == old(self).flat_view(),
            final(self).errors_logged() == old(self).errors_logged(),
            final(self).keyed_view() == keyed_insert(old(self).keyed_view(), (key, value)),
            keyed_installed(
                old(self).keyed_view(),
                final(self).keyed_view(),
                key.bytes(),
                value,
            ),
    {
        let ghost whole = self.keyed_values@;
        let ghost kv = (key, value);
        let kb: &Vec<u8> = match &key {
            SchemaKey::Static(v) => v,
        };
        let n = self.keyed_values.len();
        let mut i: usize = 0;
        proof {
            assert(whole.subrange(0, 0) =~= Seq::<(SchemaKey, JsonValue)>::empty());
            assert(whole.subrange(0, n as int) =~= whole);
        }
        let mut done = false;
        while i < n && !done
            invariant
                n == whole.len(),
                i <= n,
                self.keyed_values@ == whole,
                self.flattened_values@ == old(self).flattened_values@,
                self.log_internal_errors == old(self).log_internal_errors,
                keyed_insert(whole, kv) == whole.subrange(0, i as int) + keyed_insert(
                    whole.subrange(i as int, n as int),
                    kv,
                ),
                kv == (key, value),
                kb@ == key.bytes(),
                done ==> i < n && !lex_lt(whole[i as int].0.bytes(), kv.0.bytes()),
            decreases n - i, (if done {
                0int
            } else {
                1int
            }),
        {
            let c = match &self.keyed_values[i].0 {
                SchemaKey::Static(v) => cmp_bytes(v.as_slice(), kb.as_slice()),
            };
            if c != -1 {
                done = true;
            } else {
                proof {
                    let rest = whole.subrange(i as int, n as int);
                    assert(rest.first() == whole[i as int]);
                    assert(rest.drop_first() =~= whole.subrange(i + 1, n as int));
                    assert(lex_lt(rest.first().0.bytes(), kv.0.bytes()));
                    assert(whole.subrange(0, i as int) + (seq![rest.first()] + keyed_insert(
                        rest.drop_first(),
                        kv,
                    )) =~= whole.subrange(0, i + 1) + keyed_insert(
                        whole.subrange(i + 1, n as int),
                        kv,
                    ));
                }
                i += 1;
            }
        }
        let ghost rest = whole.subrange(i as int, n as int);
        if i == n {
            proof {
                assert(rest =~= Seq::<(SchemaKey, JsonValue)>::empty());
            }
            self.keyed_values.push((key, value));
            proof {
                assert(self.keyed_values@ =~= whole.subrange(0, i as int) + keyed_insert(
                    rest,
                    kv,
                ));
            }
        } else {
            proof {
                assert(rest.first() == whole[i as int]);
                assert(rest.drop_first() =~= whole.subrange(i + 1, n as int));
            }
            let same = match &self.keyed_values[i].0 {
                SchemaKey::Static(v) => crate::bytes::bytes_eq(v.as_slice(), kb.as_slice()),
            };
            if same {
                self.keyed_values.remove(i);
                self.keyed_values.insert(i, (key, value));
                proof {
                    assert(keyed_insert(rest, kv) == seq![kv] + rest.drop_first());
                    assert(self.keyed_values@ =~= whole.subrange(0, i as int) + keyed_insert(
                        rest,
                        kv,
                    ));
                }
            } else {
                self.keyed_values.insert(i, (key, value));
                proof {
                    assert(keyed_insert(rest, kv) == seq![kv] + rest);
                    assert(self.keyed_values@ =~= whole.subrange(0, i as int) + keyed_insert(
                        rest,
                        kv,
                    ));
                }
            }
        }
        proof {
            assert(keyed_installed(whole, self.keyed_values@, key.bytes(), value)) by {
                assert(self.keyed_values@ == keyed_insert(whole, kv));
            }
        }
    }

    /// Installs a producer under a flattened marker.
    fn insert_flat(&mut self, key: FlatSchemaKey, value: JsonValue)
        ensures
            final(self).keyed_view() == old(self).keyed_view(),
            final(self).errors_logged() == old(self).errors_logged(),
            final(self).flat_view() == flat_insert(old(self).flat_view(), (key, value)),
    {
        let ghost whole = self.flattened_values@;
        let ghost kv = (key, value);
        let n = self.flattened_values.len();
        let mut i: usize = 0;
        proof {
            assert(whole.subrange(0, 0) =~= Seq::<(FlatSchemaKey, JsonValue)>::empty());
            assert(whole.subrange(0, n as int) =~= whole);
        }
        let mut done = false;
        while i < n && !done
            invariant
                n == whole.len(),
                i <= n,
                self.flattened_values@ == whole,
                self.keyed_values@ == old(self).keyed_values@,
                self.log_internal_errors == old(self).log_internal_errors,
                flat_insert(whole, kv) == whole.subrange(0, i as int) + flat_insert(
                    whole.subrange(i as int, n as int),
                    kv,
                ),
                kv == (key, value),
                done ==> i < n && !flat_lt(whole[i as int].0, kv.0),
            decreases n - i, (if done {
                0int
            } else {
                1int
            }),
        {
            let c = cmp_flat(&self.flattened_values[i].0, &key);
            if c != -1 {
                done = true;
            } else {
                proof {
                    let rest = whole.subrange(i as int, n as int);
                    assert(rest.first() == whole[i as int]);
                    assert(rest.drop_first() =~= whole.subrange(i + 1, n as int));
                    assert(flat_lt(rest.first().0, kv.0));
                    assert(whole.subrange(0, i as int) + (seq![rest.first()] + flat_insert(
                        rest.drop_first(),
                        kv,
                    )) =~= whole.subrange(0, i + 1) + flat_insert(
                        whole.subrange(i + 1, n as int),
                        kv,
                    ));
                }
                i += 1;
            }
        }
        let ghost rest = whole.subrange(i as int, n as int);
        if i == n {
            proof {
                assert(rest =~= Seq::<(FlatSchemaKey, JsonValue)>::empty());
            }
            self.flattened_values.push((key, value));
            proof {
                assert(self.flattened_values@ =~= whole.subrange(0, i as int) + flat_insert(
                    rest,
                    kv,
                ));
            }
        } else {
            proof {
                assert(rest.first() == whole[i as int]);
                assert(rest.drop_first() =~= whole.subrange(i + 1, n as int));
            }
            let same = cmp_flat(&self.flattened_values[i].0, &key) == 0;
            if same {
                self.flattened_values.remove(i);
                self.flattened_values.insert(i, (key, value));
                proof {
                    assert(flat_insert(rest, kv) == seq![kv] + rest.drop_first());
                    assert(self.flattened_values@ =~= whole.subrange(0, i as int) + flat_insert(
                        rest,
                        kv,
                    ));
                }
            } else {
                self.flattened_values.insert(i, (key, value));
                proof {
                    assert(flat_insert(rest, kv) == seq![kv] + rest);
                    assert(self.flattened_values@ =~= whole.subrange(0, i as int) + flat_insert(
                        rest,
                        kv,
                    ));
                }
            }
        }
    }

    /// Installs a constant value under the given key.
    pub fn add_static_field(&mut self, key: &str, value: Value)
        ensures
            final(self).flat_view() == old(self).flat_view(),
            final(self).errors_logged() == old(self).errors_logged(),
            keyed_installed(
                old(self).keyed_view(),
                final(self).keyed_view(),
                key.spec_bytes(),
                JsonValue::Serde(value),
            ),
    {
        let kb = key.as_bytes_vec();
        self.insert_keyed(SchemaKey::Static(kb), JsonValue::Serde(value));
    }

    /// Installs a caller-computed event field under the given key. The
    /// token names the caller's producer; its resolved value is handed to
    /// the renderer with the event, and the key is omitted whenever no
    /// value is handed over.
    pub fn add_dynamic_field(&mut self, key: &str, token: u64)
        ensures
            final(self).flat_view() == old(self).flat_view(),
            final(self).errors_logged() == old(self).errors_logged(),
            keyed_installed(
                old(self).keyed_view(),
                final(self).keyed_view(),
                key.spec_bytes(),
                JsonValue::DynamicFromEvent(EventQuery::Token(token)),
            ),
    {
        let kb = key.as_bytes_vec();
        self.insert_keyed(
            SchemaKey::Static(kb),
            JsonValue::DynamicFromEvent(EventQuery::Token(token)),
        );
    }

    /// Installs a caller-computed producer whose resolved object is
    /// flattened into the output, under a fresh unnamed marker.
    pub fn add_multiple_dynamic_fields(&mut self, token: u64)
        ensures
            final(self).keyed_view() == old(self).keyed_view(),
            final(self).errors_logged() == old(self).errors_logged(),
            exists|u: u128|
                final(self).flat_view() == #[trigger] flat_insert(
                    old(self).flat_view(),
                    (FlatSchemaKey::Uuid(u), JsonValue::DynamicFromEvent(EventQuery::Token(token))),
                ),
    {
        let u = fresh_uuid();
        self.insert_flat(
            FlatSchemaKey::Uuid(u),
            JsonValue::DynamicFromEvent(EventQuery::Token(token)),
        );
    }

    /// Installs a caller-computed span-scoped field under the given key.
    /// The key is omitted for events with no enclosing span, and whenever
    /// no value is handed over.
    pub fn add_from_span(&mut self, key: &str, token: u64)
        ensures
            final(self).flat_view() == old(self).flat_view(),
            final(self).errors_logged() == old(self).errors_logged(),
            keyed_installed(
                old(self).keyed_view(),
                final(self).keyed_view(),
                key.spec_bytes(),
                JsonValue::DynamicFromSpan(SpanQuery::Token(token)),
            ),
    {
        let kb = key.as_bytes_vec();
        self.insert_keyed(
            SchemaKey::Static(kb),
            JsonValue::DynamicFromSpan(SpanQuery::Token(token)),
        );
    }

    /// Prints all event fields in an object under the given key.
    pub fn with_event(&mut self, key: &str)
        ensures
            final(self).flat_view() == old(self).flat_view(),
            final(self).errors_logged() == old(self).errors_logged(),
            keyed_installed(
                old(self).keyed_view(),
                final(self).keyed_view(),
                key.spec_bytes(),
                JsonValue::DynamicFromEvent(EventQuery::Fields),
            ),
    {
        let kb = key.as_bytes_vec();
        self.insert_keyed(SchemaKey::Static(kb), JsonValue::DynamicFromEvent(EventQuery::Fields));
    }

    /// Prints all event fields as top level members.
    pub fn with_flattened_event(&mut self)
        ensures
            final(self).keyed_view() == old(self).keyed_view(),
            final(self).errors_logged() == old(self).errors_logged(),
            final(self).flat_view() == flat_insert(
                old(self).flat_view(),
                (FlatSchemaKey::FlattenedEvent, JsonValue::DynamicFromEvent(EventQuery::Fields)),
            ),
    {
        self.insert_flat(
            FlatSchemaKey::FlattenedEvent,
            JsonValue::DynamicFromEvent(EventQuery::Fields),
        );
    }

    /// Prints the nearest enclosing span's cached fields under the given
    /// key.
    pub fn with_current_span(&mut self, key: &str)
        ensures
            final(self).flat_view() == old(self).flat_view(),
            final(self).errors_logged() == old(self).errors_logged(),
            keyed_installed(
                old(self).keyed_view(),
                final(self).keyed_view(),
                key.spec_bytes(),
                JsonValue::DynamicCachedFromSpan(CachedQuery::CurrentSpan),
            ),
    {
        let kb = key.as_bytes_vec();
        self.insert_keyed(
            SchemaKey::Static(kb),
            JsonValue::DynamicCachedFromSpan(CachedQuery::CurrentSpan),
        );
    }

    /// Prints the chain of enclosing spans, root first, as an array of
    /// cached span objects under the given key.
    pub fn with_span_list(&mut self, key: &str)
        ensures
            final(self).flat_view() == old(self).flat_view(),
            final(self).errors_logged() == old(self).errors_logged(),
            keyed_installed(
                old(self).keyed_view(),
                final(self).keyed_view(),
                key.spec_bytes(),
                JsonValue::DynamicCachedFromSpan(CachedQuery::SpanList),
            ),
    {
        let kb = key.as_bytes_vec();
        self.insert_keyed(
            SchemaKey::Static(kb),
            JsonValue::DynamicCachedFromSpan(CachedQuery::SpanList),
        );
    }

    /// Prints the nearest enclosing span's fields as top level members.
    pub fn with_top_level_flattened_current_span(&mut self)
        ensures
            final(self).keyed_view() == old(self).keyed_view(),
            final(self).errors_logged() == old(self).errors_logged(),
            final(self).flat_view() == flat_insert(
                old(self).flat_view(),
                (
                    FlatSchemaKey::FlattenedCurrentSpan,
                    JsonValue::DynamicCachedFromSpan(CachedQuery::CurrentSpan),
                ),
            ),
    {
        self.insert_flat(
            FlatSchemaKey::FlattenedCurrentSpan,
            JsonValue::DynamicCachedFromSpan(CachedQuery::CurrentSpan),
        );
    }

    /// Prints the merged fields of all enclosing spans as top level
    /// members; a span nearer the leaf overrides one nearer the root.
    pub fn with_top_level_flattened_span_list(&mut self)
        ensures
            final(self).keyed_view() == old(self).keyed_view(),
            final(self).errors_logged() == old(self).errors_logged(),
            final(self).flat_view() == flat_insert(
                old(self).flat_view(),
                (
                    FlatSchemaKey::FlattenedSpanList,
                    JsonValue::DynamicFromSpan(SpanQuery::MergedFields),
                ),
            ),
    {
        self.insert_flat(
            FlatSchemaKey::FlattenedSpanList,
            JsonValue::DynamicFromSpan(SpanQuery::MergedFields),
        );
    }

    /// Prints the merged fields of all enclosing spans in an object under
    /// the given key; a span nearer the leaf overrides one nearer the
    /// root.
    pub fn with_flattened_span_fields(&mut self, key: &str)
        ensures
            final(self).flat_view() == old(self).flat_view(),
            final(self).errors_logged() == old(self).errors_logged(),
            keyed_installed(
                old(self).keyed_view(),
                final(self).keyed_view(),
                key.spec_bytes(),
                JsonValue::DynamicFromSpan(SpanQuery::MergedFields),
            ),
    {
        let kb = key.as_bytes_vec();
        self.insert_keyed(
            SchemaKey::Static(kb),
            JsonValue::DynamicFromSpan(SpanQuery::MergedFields),
        );
    }

    /// Prints the event's timestamp, as handed over by the caller's time
    /// source, under the given key.
    pub fn with_timer(&mut self, key: &str)
        ensures
            final(self).flat_view() == old(self).flat_view(),
            final(self).errors_logged() == old(self).errors_logged(),
            keyed_installed(
                old(self).keyed_view(),
                final(self).keyed_view(),
                key.spec_bytes(),
                JsonValue::DynamicFromEvent(EventQuery::Timestamp),
            ),
    {
        let kb = key.as_bytes_vec();
        self.insert_keyed(
            SchemaKey::Static(kb),
            JsonValue::DynamicFromEvent(EventQuery::Timestamp),
        );
    }

    /// Stops emitting timestamps.
    pub fn without_time(&mut self)
        ensures
            final(self).flat_view() == old(self).flat_view(),
            final(self).errors_logged() == old(self).errors_logged(),
            final(self).keyed_view() == keyed_remove(
                old(self).keyed_view(),
                ("timestamp").spec_bytes(),
            ),
    {
        self.remove_field("timestamp");
    }

    /// Prints the event's target under the given key.
    pub fn with_target(&mut self, key: &str)
        ensures
            final(self).flat_view() == old(self).flat_view(),
            final(self).errors_logged() == old(self).errors_logged(),
            keyed_installed(
                old(self).keyed_view(),
                final(self).keyed_view(),
                key.spec_bytes(),
                JsonValue::DynamicRawFromEvent(RawQuery::Target),
            ),
    {
        let kb = key.as_bytes_vec();
        self.insert_keyed(SchemaKey::Static(kb), JsonValue::DynamicRawFromEvent(RawQuery::Target));
    }

    /// Prints the event's source file under the given key.
    pub fn with_file(&mut self, key: &str)
        ensures
            final(self).flat_view() == old(self).flat_view(),
            final(self).errors_logged() == old(self).errors_logged(),
            keyed_installed(
                old(self).keyed_view(),
                final(self).keyed_view(),
                key.spec_bytes(),
                JsonValue::DynamicRawFromEvent(RawQuery::File),
            ),
    {
        let kb = key.as_bytes_vec();
        self.insert_keyed(SchemaKey::Static(kb), JsonValue::DynamicRawFromEvent(RawQuery::File));
    }

    /// Prints the event's source line number under the given key.
    pub fn with_line_number(&mut self, key: &str)
        ensures
            final(self).flat_view() == old(self).flat_view(),
            final(self).errors_logged() == old(self).errors_logged(),
            keyed_installed(
                old(self).keyed_view(),
                final(self).keyed_view(),
                key.spec_bytes(),
                JsonValue::DynamicRawFromEvent(RawQuery::LineNumber),
            ),
    {
        let kb = key.as_bytes_vec();
        self.insert_keyed(
            SchemaKey::Static(kb),
            JsonValue::DynamicRawFromEvent(RawQuery::LineNumber),
        );
    }

    /// Prints the event's level under the given key.
    pub fn with_level(&mut self, key: &str)
        ensures
            final(self).flat_view() == old(self).flat_view(),
            final(self).errors_logged() == old(self).errors_logged(),
            keyed_installed(
                old(self).keyed_view(),
                final(self).keyed_view(),
                key.spec_bytes(),
                JsonValue::DynamicRawFromEvent(RawQuery::Level),
            ),
    {
        let kb = key.as_bytes_vec();
        self.insert_keyed(SchemaKey::Static(kb), JsonValue::DynamicRawFromEvent(RawQuery::Level));
    }

    /// Prints the reporting thread's name under the given key.
    pub fn with_thread_names(&mut self, key: &str)
        ensures
            final(self).flat_view() == old(self).flat_view(),
            final(self).errors_logged() == old(self).errors_logged(),
            keyed_installed(
                old(self).keyed_view(),
                final(self).keyed_view(),
                key.spec_bytes(),
                JsonValue::DynamicRawFromEvent(RawQuery::ThreadName),
            ),
    {
        let kb = key.as_bytes_vec();
        self.insert_keyed(
            SchemaKey::Static(kb),
            JsonValue::DynamicRawFromEvent(RawQuery::ThreadName),
        );
    }

    /// Prints the reporting thread's identifier under the given key.
    pub fn with_thread_ids(&mut self, key: &str)
        ensures
            final(self).flat_view() == old(self).flat_view(),
            final(self).errors_logged() == old(self).errors_logged(),
            keyed_installed(
                old(self).keyed_view(),
                final(self).keyed_view(),
                key.spec_bytes(),
                JsonValue::DynamicRawFromEvent(RawQuery::ThreadId),
            ),
    {
        let kb = key.as_bytes_vec();
        self.insert_keyed(
            SchemaKey::Static(kb),
            JsonValue::DynamicRawFromEvent(RawQuery::ThreadId),
        );
    }

    /// The number of keyed entries.
    pub fn keyed_len(&self) -> (n: usize)
        ensures
            n == self.keyed_view().len(),
    {
        self.keyed_values.len()
    }

    /// Borrows the keyed entry at position `i`.
    pub fn keyed_at(&self, i: usize) -> (e: &(SchemaKey, JsonValue))
        requires
            i < self.keyed_view().len(),
        ensures
            *e == self.keyed_view()[i as int],
    {
        &self.keyed_values[i]
    }

    /// The number of flattened entries.
    pub fn flat_len(&self) -> (n: usize)
        ensures
            n == self.flat_view().len(),
    {
        self.flattened_values.len()
    }

    /// Borrows the flattened entry at position `i`.
    pub fn flat_at(&self, i: usize) -> (e: &(FlatSchemaKey, JsonValue))
        requires
            i < self.flat_view().len(),
        ensures
            *e == self.flat_view()[i as int],
    {
        &self.flattened_values[i]
    }

    /// Removes the keyed producer at the given key; nothing happens when
    /// the key holds none.
    pub fn remove_field(&mut self, key: &str)
        ensures
            final(self).flat_view() == old(self).flat_view(),
            final(self).errors_logged() == old(self).errors_logged(),
            final(self).keyed_view() == keyed_remove(old(self).keyed_view(), key.spec_bytes()),
    {
        let kb = key.as_bytes_vec();
        self.remove_field_bytes(kb);
    }

    /// Removes the keyed producer at the key with the given bytes.
    pub fn remove_field_bytes(&mut self, kb: Vec<u8>)
        ensures
            final(self).flat_view() == old(self).flat_view(),
            final(self).errors_logged() == old(self).errors_logged(),
            final(self).keyed_view() == keyed_remove(old(self).keyed_view(), kb@),
    {
        let ghost whole = self.keyed_values@;
        let n = self.keyed_values.len();
        let mut i: usize = 0;
        proof {
            assert(whole.subrange(0, 0) =~= Seq::<(SchemaKey, JsonValue)>::empty());
            assert(whole.subrange(0, n as int) =~= whole);
        }
        while i < n
            invariant
                n == whole.len(),
                i <= n,
                whole == old(self).keyed_values@,
                self.keyed_values@ == whole,
                self.flattened_values@ == old(self).flattened_values@,
                self.log_internal_errors == old(self).log_internal_errors,
                keyed_remove(whole, kb@) == whole.subrange(0, i as int) + keyed_remove(
                    whole.subrange(i as int, n as int),
                    kb@,
                ),
            decreases n - i,
        {
            let ghost rest = whole.subrange(i as int, n as int);
            proof {
                assert(rest.first() == whole[i as int]);
                assert(rest.drop_first() =~= whole.subrange(i + 1, n as int));
            }
            let same = match &self.keyed_values[i].0 {
                SchemaKey::Static(v) => crate::bytes::bytes_eq(v.as_slice(), kb.as_slice()),
            };
            if same {
                self.keyed_values.remove(i);
                proof {
                    assert(keyed_remove(rest, kb@) == rest.drop_first());
                    assert(self.keyed_values@ =~= whole.subrange(0, i as int) + keyed_remove(
                        rest,
                        kb@,
                    ));
                }
                return;
            }
            proof {
                assert(whole.subrange(0, i as int) + (seq![rest.first()] + keyed_remove(
                    rest.drop_first(),
                    kb@,
                )) =~= whole.subrange(0, i + 1) + keyed_remove(
                    whole.subrange(i + 1, n as int),
                    kb@,
                ));
            }
            i += 1;
        }
        proof {
            assert(whole.subrange(n as int, n as int) =~= Seq::<(SchemaKey, JsonValue)>::empty());
            assert(self.keyed_values@ =~= keyed_remove(whole, kb@));
        }
    }

    /// Removes a flattened producer; nothing happens when the marker
    /// holds none.
    pub fn remove_flattened_field(&mut self, key: &FlatSchemaKey)
        ensures
            final(self).keyed_view() == old(self).keyed_view(),
            final(self).errors_logged() == old(self).errors_logged(),
            final(self).flat_view() == flat_remove(old(self).flat_view(), *key),
    {
        let ghost whole = self.flattened_values@;
        let n = self.flattened_values.len();
        let mut i: usize = 0;
        proof {
            assert(whole.subrange(0, 0) =~= Seq::<(FlatSchemaKey, JsonValue)>::empty());
            assert(whole.subrange(0, n as int) =~= whole);
        }
        while i < n
            invariant
                n == whole.len(),
                i <= n,
                whole == old(self).flattened_values@,
                self.flattened_values@ == whole,
                self.keyed_values@ == old(self).keyed_values@,
                self.log_internal_errors == old(self).log_internal_errors,
                flat_remove(whole, *key) == whole.subrange(0, i as int) + flat_remove(
                    whole.subrange(i as int, n as int),
                    *key,
                ),
            decreases n - i,
        {
            let ghost rest = whole.subrange(i as int, n as int);
            proof {
                assert(rest.first() == whole[i as int]);
                assert(rest.drop_first() =~= whole.subrange(i + 1, n as int));
            }
            let same = cmp_flat(&self.flattened_values[i].0, key) == 0;
            if same {
                self.flattened_values.remove(i);
                proof {
                    assert(flat_remove(rest, *key) == rest.drop_first());
                    assert(self.flattened_values@ =~= whole.subrange(0, i as int) + flat_remove(
                        rest,
                        *key,
                    ));
                }
                return;
            }
            proof {
                assert(whole.subrange(0, i as int) + (seq![rest.first()] + flat_remove(
                    rest.drop_first(),
                    *key,
                )) =~= whole.subrange(0, i + 1) + flat_remove(
                    whole.subrange(i + 1, n as int),
                    *key,
                ));
            }
            i += 1;
        }
        proof {
            assert(whole.subrange(n as int, n as int) =~= Seq::<
                (FlatSchemaKey, JsonValue),
            >::empty());
            assert(self.flattened_values@ =~= flat_remove(whole, *key));
        }
    }
}

} // verus!
