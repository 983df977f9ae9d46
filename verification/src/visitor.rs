//! Recording typed field values into a span's field store.
//!
//! The visitor receives one callback per field and coerces each value to
//! the JSON model: integers and booleans keep their type, strings and
//! debug-formatted values become JSON strings, and a numeric token (the
//! rendering of a floating-point value) is kept as a number only when it
//! matches the JSON number grammar.

use vstd::prelude::*;
use vstd::string::{StrSliceExecFns, StringSliceAdditionalSpecFns};

use crate::fields::{name_bytes, record_changes, spec_insert, FieldMap, FieldStore};
use crate::num::is_number_token;
use crate::value::Value;

verus! {

/// The map after recording the entry `kv`: unchanged when the recording
/// would not change it, else written in key order.
pub open spec fn record_step(m0: Seq<(Vec<u8>, Value)>, kv: (Vec<u8>, Value)) -> Seq<
    (Vec<u8>, Value),
> {
    if record_changes(m0, kv.0@, kv.1) {
        spec_insert(m0, kv)
    } else {
        m0
    }
}

/// `m1` is `m0` after recording the value `v` under `k`.
pub open spec fn recorded(
    m0: Seq<(Vec<u8>, Value)>,
    m1: Seq<(Vec<u8>, Value)>,
    k: Seq<u8>,
    v: Value,
) -> bool {
    exists|kv: (Vec<u8>, Value)| kv.0@ == k && kv.1 == v && m1 == #[trigger] record_step(m0, kv)
}

/// `m1` is `m0` after recording the JSON string with body `s` under `k`.
pub open spec fn recorded_str(
    m0: Seq<(Vec<u8>, Value)>,
    m1: Seq<(Vec<u8>, Value)>,
    k: Seq<u8>,
    s: Seq<u8>,
) -> bool {
    exists|kv: (Vec<u8>, Value)|
        kv.0@ == k && kv.1 is Str && kv.1->Str_0@ == s && m1 == #[trigger] record_step(m0, kv)
}

/// `m1` is `m0` after recording the number token `s` under `k`.
pub open spec fn recorded_num_tok(
    m0: Seq<(Vec<u8>, Value)>,
    m1: Seq<(Vec<u8>, Value)>,
    k: Seq<u8>,
    s: Seq<u8>,
) -> bool {
    exists|kv: (Vec<u8>, Value)|
        kv.0@ == k && kv.1 is NumTok && kv.1->NumTok_0@ == s && m1 == #[trigger] record_step(
            m0,
            kv,
        )
}

/// Collects the fields of one span or event.
pub struct JsonVisitor {
    store: FieldStore,
}

impl JsonVisitor {
    /// The fields recorded so far.
    pub closed spec fn fields_view(self) -> Seq<(Vec<u8>, Value)> {
        self.store.fields_view()
    }

    /// Creates a visitor with no fields recorded.
    pub fn new() -> (v: JsonVisitor)
        ensures
            v.fields_view() == Seq::<(Vec<u8>, Value)>::empty(),
    {
        JsonVisitor { store: FieldStore::new() }
    }

    /// Records a boolean field.
    pub fn record_bool(&mut self, field: &str, value: bool)
        ensures
            recorded(
                old(self).fields_view(),
                final(self).fields_view(),
                field.spec_bytes(),
                Value::Bool(value),
            ),
    {
        let key = field.as_bytes_vec();
        let ghost gkey = key;
        let v = Value::Bool(value);
        self.store.record_field(key, v);
        proof {
            assert(self.fields_view() == record_step(old(self).fields_view(), (gkey, v)));
        }
    }

    /// Records a signed integer field.
    pub fn record_i64(&mut self, field: &str, value: i64)
        ensures
            recorded(
                old(self).fields_view(),
                final(self).fields_view(),
                field.spec_bytes(),
                Value::Int(value),
            ),
    {
        let key = field.as_bytes_vec();
        let ghost gkey = key;
        let v = Value::Int(value);
        self.store.record_field(key, v);
        proof {
            assert(self.fields_view() == record_step(old(self).fields_view(), (gkey, v)));
        }
    }

    /// Records an unsigned integer field.
    pub fn record_u64(&mut self, field: &str, value: u64)
        ensures
            recorded(
                old(self).fields_view(),
                final(self).fields_view(),
                field.spec_bytes(),
                Value::UInt(value),
            ),
    {
        let key = field.as_bytes_vec();
        let ghost gkey = key;
        let v = Value::UInt(value);
        self.store.record_field(key, v);
        proof {
            assert(self.fields_view() == record_step(old(self).fields_view(), (gkey, v)));
        }
    }

    /// Records a string field.
    pub fn record_str(&mut self, field: &str, value: &str)
        ensures
            recorded_str(
                old(self).fields_view(),
                final(self).fields_view(),
                field.spec_bytes(),
                value.spec_bytes(),
            ),
    {
        let key = field.as_bytes_vec();
        let ghost gkey = key;
        let v = Value::Str(value.as_bytes_vec());
        let ghost gv = v;
        self.store.record_field(key, v);
        proof {
            assert(self.fields_view() == record_step(old(self).fields_view(), (gkey, gv)));
        }
    }

    /// Records a value by its debug rendering, as a JSON string.
    pub fn record_debug(&mut self, field: &str, value: &str)
        ensures
            recorded_str(
                old(self).fields_view(),
                final(self).fields_view(),
                field.spec_bytes(),
                value.spec_bytes(),
            ),
    {
        let key = field.as_bytes_vec();
        let ghost gkey = key;
        let v = Value::Str(value.as_bytes_vec());
        let ghost gv = v;
        self.store.record_field(key, v);
        proof {
            assert(self.fields_view() == record_step(old(self).fields_view(), (gkey, gv)));
        }
    }

    /// Records an arbitrary value field.
    pub fn record_value(&mut self, field: &str, value: Value)
        ensures
            recorded(
                old(self).fields_view(),
                final(self).fields_view(),
                field.spec_bytes(),
                value,
            ),
    {
        let key = field.as_bytes_vec();
        let ghost gkey = key;
        let ghost gv = value;
        self.store.record_field(key, value);
        proof {
            assert(self.fields_view() == record_step(old(self).fields_view(), (gkey, gv)));
        }
    }

    /// Records a numeric field handed over as a rendered token. A token
    /// outside the JSON number grammar is kept as a JSON string instead.
    pub fn record_number_token(&mut self, field: &str, token: &str)
        ensures
            is_number_token(token.spec_bytes()) ==> recorded_num_tok(
                old(self).fields_view(),
                final(self).fields_view(),
                field.spec_bytes(),
                token.spec_bytes(),
            ),
            !is_number_token(token.spec_bytes()) ==> recorded_str(
                old(self).fields_view(),
                final(self).fields_view(),
                field.spec_bytes(),
                token.spec_bytes(),
            ),
    {
        let bytes = token.as_bytes_vec();
        let key = field.as_bytes_vec();
        let ghost gkey = key;
        if crate::num::check_number_token(bytes.as_slice()) {
            let v = Value::NumTok(bytes);
            let ghost gv = v;
            self.store.record_field(key, v);
            proof {
                assert(self.fields_view() == record_step(old(self).fields_view(), (gkey, gv)));
            }
        } else {
            let v = Value::Str(bytes);
            let ghost gv = v;
            self.store.record_field(key, v);
            proof {
                assert(self.fields_view() == record_step(old(self).fields_view(), (gkey, gv)));
            }
        }
    }

    /// Closes the visitor for a span: injects the span's static name
    /// under the reserved key and returns a store whose cache is fresh.
    pub fn finish_span(self, name: &str) -> (s: FieldStore)
        ensures
            s.synced(),
            exists|kv: (Vec<u8>, Value)|
                kv.0@ == name_bytes() && kv.1 is Str && kv.1->Str_0@ == name.spec_bytes()
                    && s.fields_view() == #[trigger] spec_insert(self.fields_view(), kv),
    {
        let mut m = self.store.into_fields();
        let mut key: Vec<u8> = Vec::new();
        key.push(0x6e);
        key.push(0x61);
        key.push(0x6d);
        key.push(0x65);
        proof {
            assert(key@ =~= name_bytes());
        }
        let ghost gkey = key;
        let v = Value::Str(name.as_bytes_vec());
        let ghost gv = v;
        m.insert(key, v);
        let s = FieldStore::from_map(m);
        proof {
            assert(s.fields_view() == spec_insert(self.fields_view(), (gkey, gv)));
        }
        s
    }

    /// Closes the visitor for an event: returns the bare field map.
    pub fn finish_fields(self) -> (m: FieldMap)
        ensures
            m@ == self.fields_view(),
    {
        self.store.into_fields()
    }
}

} // verus!
