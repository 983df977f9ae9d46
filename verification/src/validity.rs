//! Validity of the rendered bytes.
//!
//! Three theorems carry the grammar argument for every emitted line:
//! an escaped string body always matches the JSON string grammar, a
//! rendered integer always matches the JSON number grammar, and a
//! rendered line holds its one newline exactly at the end, so the output
//! frames as newline-delimited JSON.

use vstd::prelude::*;

use crate::escape::{esc_byte, escape_bytes, hex_digit};
use crate::event::{
    keyed_fragment, keyed_frags, flat_frags, line_frags, producer_bytes, producer_members,
    render_line, span_caches, EventData,
};
use crate::fields::{merged_fields, render_object, FieldStore};
use crate::layer::{
    CachedQuery, EventQuery, FlatSchemaKey, JsonLayer, JsonValue, RawQuery, SchemaKey, SpanQuery,
};
use crate::num::{dec_digits, is_number_token, num_run, num_step, render_i64, render_u64};
use crate::value::{
    join_comma, render_elements, render_members, render_string, render_value, Value,
};

verus! {

/// Whether `b` is a hexadecimal digit byte.
pub open spec fn is_hex_byte(b: u8) -> bool {
    (0x30 <= b <= 0x39) || (0x61 <= b <= 0x66) || (0x41 <= b <= 0x46)
}

/// One step of the JSON string-body automaton. States: 0 between
/// characters, 1 after a backslash, 3 to 6 inside the four hexadecimal
/// digits of a unicode escape, 9 rejected.
pub open spec fn sb_step(st: int, b: u8) -> int {
    if st == 0 {
        if b == 0x22 || b < 0x20 {
            9
        } else if b == 0x5c {
            1
        } else {
            0
        }
    } else if st == 1 {
        if b == 0x22 || b == 0x5c || b == 0x2f || b == 0x62 || b == 0x66 || b == 0x6e || b == 0x72
            || b == 0x74 {
            0
        } else if b == 0x75 {
            3
        } else {
            9
        }
    } else if st == 3 || st == 4 || st == 5 {
        if is_hex_byte(b) {
            st + 1
        } else {
            9
        }
    } else if st == 6 {
        if is_hex_byte(b) {
            0
        } else {
            9
        }
    } else {
        9
    }
}

/// Runs the string-body automaton.
pub open spec fn sb_run(st: int, s: Seq<u8>) -> int
    decreases s.len(),
{
    if s.len() == 0 {
        st
    } else {
        sb_run(sb_step(st, s.first()), s.drop_first())
    }
}

/// Whether `s` is a complete JSON string body: no raw quote, backslash
/// or control byte, and every escape well formed.
pub open spec fn string_body_ok(s: Seq<u8>) -> bool {
    sb_run(0, s) == 0
}

/// Running over a concatenation runs over both parts in turn.
pub proof fn lemma_sb_run_concat(st: int, a: Seq<u8>, b: Seq<u8>)
    ensures
        sb_run(st, a + b) == sb_run(sb_run(st, a), b),
    decreases a.len(),
{
    if a.len() == 0 {
        assert(a + b =~= b);
    } else {
        assert((a + b).first() == a.first());
        assert((a + b).drop_first() =~= a.drop_first() + b);
        lemma_sb_run_concat(sb_step(st, a.first()), a.drop_first(), b);
    }
}

proof fn lemma_sb_run1(st: int, b0: u8)
    ensures
        sb_run(st, seq![b0]) == sb_step(st, b0),
{
    assert(seq![b0].first() == b0);
    assert(seq![b0].drop_first() =~= Seq::<u8>::empty());
    assert(sb_run(sb_step(st, b0), Seq::<u8>::empty()) == sb_step(st, b0));
}

proof fn lemma_sb_run2(st: int, b0: u8, b1: u8)
    ensures
        sb_run(st, seq![b0, b1]) == sb_step(sb_step(st, b0), b1),
{
    let s = seq![b0, b1];
    assert(s.first() == b0);
    assert(s.drop_first() =~= seq![b1]);
    lemma_sb_run1(sb_step(st, b0), b1);
}

/// An escaped body always matches the string grammar.
pub proof fn lemma_escape_string_body_ok(s: Seq<u8>)
    ensures
        string_body_ok(escape_bytes(s)),
    decreases s.len(),
{
    if s.len() == 0 {
    } else {
        lemma_escape_string_body_ok(s.drop_last());
        let b = s.last();
        let e = esc_byte(b);
        lemma_sb_run_concat(0, escape_bytes(s.drop_last()), e);
        if b == 0x22 {
            lemma_sb_run2(0, 0x5c, 0x22);
        } else if b == 0x5c {
            lemma_sb_run2(0, 0x5c, 0x5c);
        } else if b == 0x08 {
            lemma_sb_run2(0, 0x5c, 0x62);
        } else if b == 0x09 {
            lemma_sb_run2(0, 0x5c, 0x74);
        } else if b == 0x0a {
            lemma_sb_run2(0, 0x5c, 0x6e);
        } else if b == 0x0c {
            lemma_sb_run2(0, 0x5c, 0x66);
        } else if b == 0x0d {
            lemma_sb_run2(0, 0x5c, 0x72);
        } else if b < 0x20 {
            let hi = hex_digit(b / 16);
            let lo = hex_digit(b % 16);
            assert(is_hex_byte(hi));
            assert(is_hex_byte(lo));
            assert(e.first() == 0x5c);
            assert(e.drop_first() =~= seq![0x75u8, 0x30u8, 0x30u8, hi, lo]);
            let e1 = seq![0x75u8, 0x30u8, 0x30u8, hi, lo];
            assert(e1.first() == 0x75);
            assert(e1.drop_first() =~= seq![0x30u8, 0x30u8, hi, lo]);
            let e2 = seq![0x30u8, 0x30u8, hi, lo];
            assert(e2.first() == 0x30);
            assert(e2.drop_first() =~= seq![0x30u8, hi, lo]);
            let e3 = seq![0x30u8, hi, lo];
            assert(e3.first() == 0x30);
            assert(e3.drop_first() =~= seq![hi, lo]);
            assert(sb_run(0, e) == sb_run(1, e1));
            assert(sb_run(1, e1) == sb_run(3, e2));
            assert(sb_run(3, e2) == sb_run(4, e3));
            assert(sb_run(4, e3) == sb_run(5, seq![hi, lo]));
            lemma_sb_run2(5, hi, lo);
            assert(sb_run(0, e) == 0);
        } else {
            lemma_sb_run1(0, b);
        }
    }
}

/// Running the number automaton over a concatenation runs over both
/// parts in turn.
pub proof fn lemma_num_run_concat(st: int, a: Seq<u8>, b: Seq<u8>)
    ensures
        num_run(st, a + b) == num_run(num_run(st, a), b),
    decreases a.len(),
{
    if a.len() == 0 {
        assert(a + b =~= b);
    } else {
        assert((a + b).first() == a.first());
        assert((a + b).drop_first() =~= a.drop_first() + b);
        lemma_num_run_concat(num_step(st, a.first()), a.drop_first(), b);
    }
}

proof fn lemma_num_run1(st: int, b: u8)
    ensures
        num_run(st, seq![b]) == num_step(st, b),
{
    assert(seq![b].first() == b);
    assert(seq![b].drop_first() =~= Seq::<u8>::empty());
    assert(num_run(num_step(st, b), Seq::<u8>::empty()) == num_step(st, b));
}

/// Every byte of a decimal rendering is a digit.
pub proof fn lemma_digits_are_digits(n: nat)
    ensures
        forall|i: int|
            0 <= i < dec_digits(n).len() ==> 0x30 <= #[trigger] dec_digits(n)[i] <= 0x39,
    decreases n,
{
    if n >= 10 {
        lemma_digits_are_digits(n / 10);
        let whole = dec_digits(n);
        let prefix = dec_digits(n / 10);
        assert forall|i: int| 0 <= i < whole.len() implies 0x30 <= #[trigger] whole[i] <= 0x39 by {
            if i < prefix.len() {
                assert(whole[i] == prefix[i]);
            } else {
                assert(whole[i] == (0x30 + n % 10) as u8);
            }
        }
    }
}

/// From the integer-digits states, a positive number's digits lead to
/// the accepting integer state.
proof fn lemma_digits_run(n: nat, st: int)
    requires
        n >= 1,
        st == 0 || st == 1,
    ensures
        num_run(st, dec_digits(n)) == 3,
    decreases n,
{
    if n < 10 {
        assert(dec_digits(n) == seq![(0x30 + n) as u8]);
        lemma_num_run1(st, (0x30 + n) as u8);
    } else {
        let d = (0x30 + n % 10) as u8;
        lemma_num_run_concat(st, dec_digits(n / 10), seq![d]);
        lemma_digits_run(n / 10, st);
        lemma_num_run1(3, d);
    }
}

/// A rendered unsigned integer matches the JSON number grammar.
pub proof fn lemma_u64_token(n: u64)
    ensures
        is_number_token(render_u64(n)),
{
    if n == 0 {
        assert(dec_digits(0) == seq![0x30u8]);
        lemma_num_run1(0, 0x30);
    } else {
        lemma_digits_run(n as nat, 0);
    }
}

/// A rendered signed integer matches the JSON number grammar.
pub proof fn lemma_i64_token(i: i64)
    ensures
        is_number_token(render_i64(i)),
{
    if i >= 0 {
        lemma_u64_token(i as u64);
        assert(render_i64(i) == render_u64(i as u64));
    } else {
        let mag = (-(i as int)) as nat;
        let s = seq![0x2du8] + dec_digits(mag);
        assert(s.first() == 0x2d);
        assert(s.drop_first() =~= dec_digits(mag));
        lemma_digits_run(mag, 1);
    }
}

/// Whether `s` holds no newline byte.
pub open spec fn nl_free(s: Seq<u8>) -> bool {
    forall|i: int| 0 <= i < s.len() ==> s[i] != 0x0a
}

/// Concatenation keeps newline freedom.
pub proof fn lemma_nl_concat(a: Seq<u8>, b: Seq<u8>)
    requires
        nl_free(a),
        nl_free(b),
    ensures
        nl_free(a + b),
{
    assert forall|i: int| 0 <= i < (a + b).len() implies (a + b)[i] != 0x0a by {
        if i < a.len() {
            assert((a + b)[i] == a[i]);
        } else {
            assert((a + b)[i] == b[i - a.len()]);
        }
    }
}

/// An escaped body holds no newline: the newline byte itself is written
/// as its two-byte escape.
pub proof fn lemma_escape_nl(s: Seq<u8>)
    ensures
        nl_free(escape_bytes(s)),
    decreases s.len(),
{
    if s.len() > 0 {
        lemma_escape_nl(s.drop_last());
        assert(nl_free(esc_byte(s.last())));
        lemma_nl_concat(escape_bytes(s.drop_last()), esc_byte(s.last()));
    }
}

/// A rendered string holds no newline.
pub proof fn lemma_string_nl(s: Seq<u8>)
    ensures
        nl_free(render_string(s)),
{
    lemma_escape_nl(s);
    lemma_nl_concat(seq![0x22u8], escape_bytes(s));
    lemma_nl_concat(seq![0x22u8] + escape_bytes(s), seq![0x22u8]);
}

/// A decimal rendering holds no newline.
pub proof fn lemma_digits_nl(n: nat)
    ensures
        nl_free(dec_digits(n)),
{
    lemma_digits_are_digits(n);
}

/// The rejected state of the number automaton absorbs.
proof fn lemma_num_absorb(s: Seq<u8>)
    ensures
        num_run(9, s) == 9,
    decreases s.len(),
{
    if s.len() > 0 {
        lemma_num_absorb(s.drop_first());
    }
}

/// A newline anywhere rejects a number token.
proof fn lemma_num_newline_rejects(st: int, s: Seq<u8>, i: int)
    requires
        0 <= i < s.len(),
        s[i] == 0x0a,
    ensures
        num_run(st, s) == 9,
    decreases i,
{
    if i == 0 {
        assert(num_step(st, s.first()) == 9);
        lemma_num_absorb(s.drop_first());
    } else {
        assert(s.drop_first()[i - 1] == 0x0a);
        lemma_num_newline_rejects(num_step(st, s.first()), s.drop_first(), i - 1);
    }
}

/// A valid number token holds no newline.
pub proof fn lemma_numtok_nl(t: Seq<u8>)
    requires
        is_number_token(t),
    ensures
        nl_free(t),
{
    assert forall|i: int| 0 <= i < t.len() implies t[i] != 0x0a by {
        if t[i] == 0x0a {
            lemma_num_newline_rejects(0, t, i);
        }
    }
}

/// A rendered value holds no newline.
pub proof fn lemma_value_nl(v: Value)
    ensures
        nl_free(render_value(v)),
    decreases v,
{
    match v {
        Value::Null => {},
        Value::Bool(_) => {},
        Value::Int(i) => {
            if i < 0 {
                lemma_digits_nl((-(i as int)) as nat);
                lemma_nl_concat(seq![0x2du8], dec_digits((-(i as int)) as nat));
            } else {
                lemma_digits_nl(i as nat);
            }
        },
        Value::UInt(n) => {
            lemma_digits_nl(n as nat);
        },
        Value::NumTok(t) => {
            if is_number_token(t@) {
                lemma_numtok_nl(t@);
            }
        },
        Value::Str(s) => {
            lemma_string_nl(s@);
        },
        Value::Arr(a) => {
            lemma_elements_nl(a@);
            lemma_nl_concat(seq![0x5bu8], render_elements(a@));
            lemma_nl_concat(seq![0x5bu8] + render_elements(a@), seq![0x5du8]);
        },
        Value::Obj(m) => {
            lemma_members_nl(m@);
            lemma_nl_concat(seq![0x7bu8], render_members(m@));
            lemma_nl_concat(seq![0x7bu8] + render_members(m@), seq![0x7du8]);
        },
    }
}

/// Rendered array elements hold no newline.
pub proof fn lemma_elements_nl(a: Seq<Value>)
    ensures
        nl_free(render_elements(a)),
    decreases a,
{
    if a.len() == 0 {
    } else if a.len() == 1 {
        lemma_value_nl(a.last());
    } else {
        lemma_elements_nl(a.drop_last());
        lemma_value_nl(a.last());
        lemma_nl_concat(render_elements(a.drop_last()), seq![0x2cu8]);
        lemma_nl_concat(
            render_elements(a.drop_last()) + seq![0x2cu8],
            render_value(a.last()),
        );
    }
}

/// Rendered object members hold no newline.
pub proof fn lemma_members_nl(m: Seq<(Vec<u8>, Value)>)
    ensures
        nl_free(render_members(m)),
    decreases m,
{
    if m.len() == 0 {
    } else {
        let k = render_string(m.last().0@);
        lemma_string_nl(m.last().0@);
        lemma_value_nl(m.last().1);
        lemma_nl_concat(k, seq![0x3au8]);
        lemma_nl_concat(k + seq![0x3au8], render_value(m.last().1));
        if m.len() == 1 {
        } else {
            lemma_members_nl(m.drop_last());
            lemma_nl_concat(render_members(m.drop_last()), seq![0x2cu8]);
            lemma_nl_concat(
                render_members(m.drop_last()) + seq![0x2cu8],
                k + seq![0x3au8] + render_value(m.last().1),
            );
        }
    }
}

/// A rendered object holds no newline.
pub proof fn lemma_object_nl(m: Seq<(Vec<u8>, Value)>)
    ensures
        nl_free(render_object(m)),
{
    lemma_members_nl(m);
    lemma_nl_concat(seq![0x7bu8], render_members(m));
    lemma_nl_concat(seq![0x7bu8] + render_members(m), seq![0x7du8]);
}

/// Joining newline-free fragments stays newline free.
pub proof fn lemma_join_nl(fs: Seq<Seq<u8>>)
    requires
        forall|i: int| 0 <= i < fs.len() ==> nl_free(#[trigger] fs[i]),
    ensures
        nl_free(join_comma(fs)),
    decreases fs.len(),
{
    if fs.len() == 0 {
    } else if fs.len() == 1 {
        assert(nl_free(fs.last()));
    } else {
        assert(forall|i: int|
            0 <= i < fs.drop_last().len() ==> nl_free(#[trigger] fs.drop_last()[i]));
        lemma_join_nl(fs.drop_last());
        assert(nl_free(fs.last()));
        lemma_nl_concat(join_comma(fs.drop_last()), seq![0x2cu8]);
        lemma_nl_concat(join_comma(fs.drop_last()) + seq![0x2cu8], fs.last());
    }
}

/// The cached renderings of a synchronized span chain hold no newline.
proof fn lemma_span_caches_nl(spans: Seq<FieldStore>)
    requires
        forall|i: int| 0 <= i < spans.len() ==> (#[trigger] spans[i]).synced(),
    ensures
        forall|i: int| 0 <= i < span_caches(spans).len() ==> nl_free(#[trigger] span_caches(spans)[i]),
    decreases spans.len(),
{
    if spans.len() > 0 {
        assert(forall|i: int|
            0 <= i < spans.drop_last().len() ==> (#[trigger] spans.drop_last()[i]).synced());
        lemma_span_caches_nl(spans.drop_last());
        assert(spans.last().synced());
        lemma_object_nl(spans.last().fields_view());
        let cs = span_caches(spans);
        assert forall|i: int| 0 <= i < cs.len() implies nl_free(#[trigger] cs[i]) by {
            if i < cs.len() - 1 {
                assert(cs[i] == span_caches(spans.drop_last())[i]);
            } else {
                assert(cs[i] == spans.last().cache_view());
            }
        }
    }
}

/// The fragment of any keyed entry holds no newline.
proof fn lemma_keyed_fragment_nl(
    e: (SchemaKey, JsonValue),
    ev: EventData,
    spans: Seq<FieldStore>,
)
    requires
        forall|i: int| 0 <= i < spans.len() ==> (#[trigger] spans[i]).synced(),
    ensures
        match keyed_fragment(e, ev, spans) {
            Option::Some(f) => nl_free(f),
            Option::None => true,
        },
{
    match producer_bytes(e.1, ev, spans) {
        Option::Some(b) => {
            assert(nl_free(b)) by {
                match e.1 {
                    JsonValue::Serde(v) => {
                        lemma_value_nl(v);
                    },
                    JsonValue::DynamicFromEvent(q) => {
                        match q {
                            EventQuery::Timestamp => {
                                match ev.timestamp {
                                    Option::Some(t) => {
                                        lemma_string_nl(t@);
                                    },
                                    Option::None => {},
                                }
                            },
                            EventQuery::Fields => {
                                lemma_object_nl(ev.fields@);
                            },
                            EventQuery::Token(id) => {
                                match crate::event::tok_lookup(ev.event_tokens@, id) {
                                    Option::Some(v) => {
                                        lemma_value_nl(v);
                                    },
                                    Option::None => {},
                                }
                            },
                        }
                    },
                    JsonValue::DynamicFromSpan(q) => {
                        match q {
                            SpanQuery::MergedFields => {
                                lemma_object_nl(merged_fields(spans));
                            },
                            SpanQuery::Token(id) => {
                                match crate::event::tok_lookup(ev.span_tokens@, id) {
                                    Option::Some(v) => {
                                        lemma_value_nl(v);
                                    },
                                    Option::None => {},
                                }
                            },
                        }
                    },
                    JsonValue::DynamicCachedFromSpan(q) => {
                        match q {
                            CachedQuery::CurrentSpan => {
                                assert(spans.last().synced());
                                lemma_object_nl(spans.last().fields_view());
                            },
                            CachedQuery::SpanList => {
                                lemma_span_caches_nl(spans);
                                lemma_join_nl(span_caches(spans));
                                lemma_nl_concat(seq![0x5bu8], join_comma(span_caches(spans)));
                                lemma_nl_concat(
                                    seq![0x5bu8] + join_comma(span_caches(spans)),
                                    seq![0x5du8],
                                );
                            },
                        }
                    },
                    JsonValue::DynamicRawFromEvent(q) => {
                        match q {
                            RawQuery::Target => {
                                lemma_string_nl(ev.target@);
                            },
                            RawQuery::Level => {
                                lemma_string_nl(ev.level@);
                            },
                            RawQuery::File => {
                                match ev.file {
                                    Option::Some(f) => {
                                        lemma_string_nl(f@);
                                    },
                                    Option::None => {},
                                }
                            },
                            RawQuery::LineNumber => {
                                match ev.line {
                                    Option::Some(n) => {
                                        lemma_digits_nl(n as nat);
                                    },
                                    Option::None => {},
                                }
                            },
                            RawQuery::ThreadName => {
                                match ev.thread_name {
                                    Option::Some(t) => {
                                        lemma_string_nl(t@);
                                    },
                                    Option::None => {},
                                }
                            },
                            RawQuery::ThreadId => {
                                match ev.thread_id {
                                    Option::Some(t) => {
                                        lemma_string_nl(t@);
                                    },
                                    Option::None => {},
                                }
                            },
                        }
                    },
                }
            }
            lemma_string_nl(e.0.bytes());
            lemma_nl_concat(render_string(e.0.bytes()), seq![0x3au8]);
            lemma_nl_concat(render_string(e.0.bytes()) + seq![0x3au8], b);
        },
        Option::None => {},
    }
}

/// The members a flattened entry splices hold no newline.
proof fn lemma_producer_members_nl(p: JsonValue, ev: EventData, spans: Seq<FieldStore>)
    ensures
        match producer_members(p, ev, spans) {
            Option::Some(f) => nl_free(f),
            Option::None => true,
        },
{
    match producer_members(p, ev, spans) {
        Option::Some(f) => {
            match p {
                JsonValue::Serde(v) => {
                    match v {
                        Value::Obj(m) => {
                            lemma_members_nl(m@);
                        },
                        _ => {},
                    }
                },
                JsonValue::DynamicFromEvent(q) => {
                    match q {
                        EventQuery::Fields => {
                            lemma_members_nl(ev.fields@);
                        },
                        EventQuery::Token(id) => {
                            match crate::event::tok_lookup(ev.event_tokens@, id) {
                                Option::Some(v) => {
                                    match v {
                                        Value::Obj(m) => {
                                            lemma_members_nl(m@);
                                        },
                                        _ => {},
                                    }
                                },
                                Option::None => {},
                            }
                        },
                        _ => {},
                    }
                },
                JsonValue::DynamicFromSpan(q) => {
                    match q {
                        SpanQuery::MergedFields => {
                            lemma_members_nl(merged_fields(spans));
                        },
                        SpanQuery::Token(id) => {
                            match crate::event::tok_lookup(ev.span_tokens@, id) {
                                Option::Some(v) => {
                                    match v {
                                        Value::Obj(m) => {
                                            lemma_members_nl(m@);
                                        },
                                        _ => {},
                                    }
                                },
                                Option::None => {},
                            }
                        },
                    }
                },
                JsonValue::DynamicCachedFromSpan(q) => {
                    match q {
                        CachedQuery::CurrentSpan => {
                            lemma_members_nl(spans.last().fields_view());
                        },
                        _ => {},
                    }
                },
                JsonValue::DynamicRawFromEvent(_) => {},
            }
        },
        Option::None => {},
    }
}

/// Every fragment of a line holds no newline.
proof fn lemma_keyed_frags_nl(
    entries: Seq<(SchemaKey, JsonValue)>,
    ev: EventData,
    spans: Seq<FieldStore>,
)
    requires
        forall|i: int| 0 <= i < spans.len() ==> (#[trigger] spans[i]).synced(),
    ensures
        forall|i: int|
            0 <= i < keyed_frags(entries, ev, spans).len() ==> nl_free(
                #[trigger] keyed_frags(entries, ev, spans)[i],
            ),
    decreases entries.len(),
{
    if entries.len() > 0 {
        lemma_keyed_frags_nl(entries.drop_last(), ev, spans);
        lemma_keyed_fragment_nl(entries.last(), ev, spans);
        let fs = keyed_frags(entries, ev, spans);
        let prev = keyed_frags(entries.drop_last(), ev, spans);
        assert forall|i: int| 0 <= i < fs.len() implies nl_free(#[trigger] fs[i]) by {
            if i < prev.len() {
                assert(fs[i] == prev[i]);
            } else {
                match keyed_fragment(entries.last(), ev, spans) {
                    Option::Some(f) => {
                        assert(fs[i] == f);
                    },
                    Option::None => {},
                }
            }
        }
    }
}

proof fn lemma_flat_frags_nl(
    entries: Seq<(FlatSchemaKey, JsonValue)>,
    ev: EventData,
    spans: Seq<FieldStore>,
)
    ensures
        forall|i: int|
            0 <= i < flat_frags(entries, ev, spans).len() ==> nl_free(
                #[trigger] flat_frags(entries, ev, spans)[i],
            ),
    decreases entries.len(),
{
    if entries.len() > 0 {
        lemma_flat_frags_nl(entries.drop_last(), ev, spans);
        lemma_producer_members_nl(entries.last().1, ev, spans);
        let fs = flat_frags(entries, ev, spans);
        let prev = flat_frags(entries.drop_last(), ev, spans);
        assert forall|i: int| 0 <= i < fs.len() implies nl_free(#[trigger] fs[i]) by {
            if i < prev.len() {
                assert(fs[i] == prev[i]);
            } else {
                match producer_members(entries.last().1, ev, spans) {
                    Option::Some(f) => {
                        assert(fs[i] == f);
                    },
                    Option::None => {},
                }
            }
        }
    }
}

/// A rendered line is one newline-terminated record: its final byte is
/// the one newline it holds, so lines frame as newline-delimited JSON.
pub proof fn lemma_line_newline_framing(l: JsonLayer, ev: EventData, spans: Seq<FieldStore>)
    requires
        forall|i: int| 0 <= i < spans.len() ==> (#[trigger] spans[i]).synced(),
    ensures
        render_line(l, ev, spans).len() >= 3,
        render_line(l, ev, spans).last() == 0x0a,
        forall|i: int|
            0 <= i < render_line(l, ev, spans).len() - 1 ==> render_line(l, ev, spans)[i] != 0x0a,
{
    let frags = line_frags(l, ev, spans);
    lemma_keyed_frags_nl(l.keyed_view(), ev, spans);
    lemma_flat_frags_nl(l.flat_view(), ev, spans);
    assert forall|i: int| 0 <= i < frags.len() implies nl_free(#[trigger] frags[i]) by {
        let kf = keyed_frags(l.keyed_view(), ev, spans);
        if i < kf.len() {
            assert(frags[i] == kf[i]);
        } else {
            assert(frags[i] == flat_frags(l.flat_view(), ev, spans)[i - kf.len()]);
        }
    }
    lemma_join_nl(frags);
    let body = join_comma(frags);
    let line = render_line(l, ev, spans);
    assert(line == seq![0x7bu8] + body + seq![0x7du8, 0x0au8]);
    assert forall|i: int| 0 <= i < line.len() - 1 implies line[i] != 0x0a by {
        if i == 0 {
            assert(line[i] == 0x7b);
        } else if i < 1 + body.len() {
            assert(line[i] == body[i - 1]);
        } else {
            assert(line[i] == 0x7d);
        }
    }
    assert(line.last() == 0x0a);
}

} // verus!
