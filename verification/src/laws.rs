//! The library's laws: what holds of every schema, every field store and
//! every rendered line.

use vstd::prelude::*;

use crate::bytes::{lemma_lex_lt_irrefl, lemma_lex_lt_total, lemma_lex_lt_trans, lex_lt};
use crate::event::{
    cached_value_bytes, keyed_fragment, keyed_frags, flat_frags, producer_bytes,
    producer_members, render_line, span_caches, tok_lookup, EventData,
};
use crate::fields::{
    insert_all, lookup, merged_fields, render_object, spec_insert, FieldStore,
};
use crate::layer::{
    CachedQuery, EventQuery, FlatSchemaKey, JsonLayer, JsonValue, SchemaKey, SpanQuery,
};
use crate::value::{
    lemma_members_equiv_render, lemma_val_eq_render, map_equiv, val_eq, Value,
};
use crate::visitor::record_step;

verus! {

/// A rendered line is a mathematical function of the schema, the event
/// and the span chain: rendering the same state twice gives the same
/// bytes. The renderer's own contract pins its output to this function.
pub proof fn lemma_render_deterministic(
    l: JsonLayer,
    ev: EventData,
    spans: Seq<FieldStore>,
    out1: Seq<u8>,
    out2: Seq<u8>,
)
    requires
        out1 == render_line(l, ev, spans),
        out2 == render_line(l, ev, spans),
    ensures
        out1 == out2,
{
}

/// Recording a value equal to the one a field already holds leaves the
/// field map, and with it the cached serialization, untouched.
pub proof fn lemma_record_same_value(m: Seq<(Vec<u8>, Value)>, kv: (Vec<u8>, Value))
    requires
        match lookup(m, kv.0@) {
            Option::Some(cur) => val_eq(cur, kv.1),
            Option::None => false,
        },
    ensures
        record_step(m, kv) == m,
{
}

/// Recording a different value writes it, and the field then reads back
/// as written.
pub proof fn lemma_record_new_value(m: Seq<(Vec<u8>, Value)>, kv: (Vec<u8>, Value))
    requires
        kv.0@ != crate::fields::name_bytes(),
        match lookup(m, kv.0@) {
            Option::Some(cur) => !val_eq(cur, kv.1),
            Option::None => true,
        },
    ensures
        record_step(m, kv) == spec_insert(m, kv),
        lookup(spec_insert(m, kv), kv.0@) == Option::Some(kv.1),
{
    lemma_lookup_insert(m, kv);
}

/// After an insertion, the inserted key reads back as the inserted
/// value.
pub proof fn lemma_lookup_insert(m: Seq<(Vec<u8>, Value)>, kv: (Vec<u8>, Value))
    ensures
        lookup(spec_insert(m, kv), kv.0@) == Option::Some(kv.1),
    decreases m.len(),
{
    if m.len() == 0 {
        assert(spec_insert(m, kv) == seq![kv]);
        assert(spec_insert(m, kv).first() == kv);
    } else if lex_lt(m.first().0@, kv.0@) {
        lemma_lex_lt_irrefl(kv.0@);
        assert(m.first().0@ != kv.0@);
        lemma_lookup_insert(m.drop_first(), kv);
        let r = seq![m.first()] + spec_insert(m.drop_first(), kv);
        assert(r.first() == m.first());
        assert(r.drop_first() =~= spec_insert(m.drop_first(), kv));
    } else {
        let r = spec_insert(m, kv);
        assert(r.first() == kv);
    }
}

/// A fresh cache read through the renderer reflects exactly the span's
/// current fields: the value spliced for the nearest enclosing span is
/// the rendering of its field map.
pub proof fn lemma_fresh_cache_read(spans: Seq<FieldStore>)
    requires
        spans.len() > 0,
        spans.last().synced(),
    ensures
        cached_value_bytes(CachedQuery::CurrentSpan, spans) == render_object(
            spans.last().fields_view(),
        ),
{
}

/// The span list renders the chain's cached objects in chain order:
/// position `i` of the array holds span `i`, root first, leaf last.
pub proof fn lemma_span_list_order(spans: Seq<FieldStore>)
    ensures
        span_caches(spans).len() == spans.len(),
        forall|i: int|
            0 <= i < spans.len() ==> #[trigger] span_caches(spans)[i] == spans[i].cache_view(),
    decreases spans.len(),
{
    if spans.len() > 0 {
        lemma_span_list_order(spans.drop_last());
        let cs = span_caches(spans);
        assert(forall|i: int|
            0 <= i < spans.len() - 1 ==> #[trigger] cs[i] == span_caches(spans.drop_last())[i]);
        assert(forall|i: int|
            0 <= i < spans.len() - 1 ==> #[trigger] spans.drop_last()[i] == spans[i]);
        assert(cs[spans.len() - 1] == spans.last().cache_view());
    }
}

/// A keyed producer that resolves to nothing contributes nothing: the
/// line's fragments are those of the schema without that entry, so its
/// key is absent rather than bound to null.
pub proof fn lemma_keyed_none_omitted(
    entries: Seq<(SchemaKey, JsonValue)>,
    i: int,
    ev: EventData,
    spans: Seq<FieldStore>,
)
    requires
        0 <= i < entries.len(),
        keyed_fragment(entries[i], ev, spans) is None,
    ensures
        keyed_frags(entries, ev, spans) == keyed_frags(entries.remove(i), ev, spans),
    decreases entries.len(),
{
    if i == entries.len() - 1 {
        assert(entries.remove(i) =~= entries.drop_last());
        assert(keyed_frags(entries, ev, spans) =~= keyed_frags(entries.drop_last(), ev, spans));
    } else {
        lemma_keyed_none_omitted(entries.drop_last(), i, ev, spans);
        let small = entries.remove(i);
        assert(small.drop_last() =~= entries.drop_last().remove(i));
        assert(small.last() == entries.last());
        assert(keyed_frags(entries, ev, spans) =~= keyed_frags(small, ev, spans));
    }
}

/// A span-scoped producer is skipped entirely for an event with no
/// enclosing span.
pub proof fn lemma_span_scoped_skipped(
    e: (SchemaKey, JsonValue),
    ev: EventData,
    spans: Seq<FieldStore>,
)
    requires
        spans.len() == 0,
        e.1 is DynamicFromSpan || e.1 is DynamicCachedFromSpan,
    ensures
        keyed_fragment(e, ev, spans) is None,
{
}

/// A flattened producer that resolves to nothing, to a value that is not
/// an object, or to an object with no members contributes nothing: no
/// member and no comma.
pub proof fn lemma_flatten_empty_omitted(
    entries: Seq<(FlatSchemaKey, JsonValue)>,
    i: int,
    ev: EventData,
    spans: Seq<FieldStore>,
)
    requires
        0 <= i < entries.len(),
        producer_members(entries[i].1, ev, spans) is None,
    ensures
        flat_frags(entries, ev, spans) == flat_frags(entries.remove(i), ev, spans),
    decreases entries.len(),
{
    if i == entries.len() - 1 {
        assert(entries.remove(i) =~= entries.drop_last());
        assert(flat_frags(entries, ev, spans) =~= flat_frags(entries.drop_last(), ev, spans));
    } else {
        lemma_flatten_empty_omitted(entries.drop_last(), i, ev, spans);
        let small = entries.remove(i);
        assert(small.drop_last() =~= entries.drop_last().remove(i));
        assert(small.last() == entries.last());
        assert(flat_frags(entries, ev, spans) =~= flat_frags(small, ev, spans));
    }
}

/// Flattening an event without fields contributes nothing.
pub proof fn lemma_flatten_empty_event(p: JsonValue, ev: EventData, spans: Seq<FieldStore>)
    requires
        p == JsonValue::DynamicFromEvent(crate::layer::EventQuery::Fields),
        ev.fields@.len() == 0,
    ensures
        producer_members(p, ev, spans) is None,
{
}

/// Flattening a merged span object without members contributes nothing.
pub proof fn lemma_flatten_empty_merged(p: JsonValue, ev: EventData, spans: Seq<FieldStore>)
    requires
        p == JsonValue::DynamicFromSpan(SpanQuery::MergedFields),
        merged_fields(spans).len() == 0,
    ensures
        producer_members(p, ev, spans) is None,
{
}

/// Pointwise content equivalence of two resolved-token tables.
pub open spec fn toks_equiv(a: Seq<(u64, Value)>, b: Seq<(u64, Value)>) -> bool {
    &&& a.len() == b.len()
    &&& forall|i: int| 0 <= i < a.len() ==> (#[trigger] a[i]).0 == b[i].0 && val_eq(a[i].1, b[i].1)
}

/// Content equivalence of two optional byte strings.
pub open spec fn opt_bytes_equiv(a: Option<Vec<u8>>, b: Option<Vec<u8>>) -> bool {
    match (a, b) {
        (Option::Some(x), Option::Some(y)) => x@ == y@,
        (Option::None, Option::None) => true,
        _ => false,
    }
}

/// Content equivalence of two events: the same details, fields and
/// resolved values, compared by content.
pub open spec fn event_equiv(a: EventData, b: EventData) -> bool {
    &&& opt_bytes_equiv(a.timestamp, b.timestamp)
    &&& a.level@ == b.level@
    &&& a.target@ == b.target@
    &&& opt_bytes_equiv(a.file, b.file)
    &&& a.line == b.line
    &&& opt_bytes_equiv(a.thread_name, b.thread_name)
    &&& opt_bytes_equiv(a.thread_id, b.thread_id)
    &&& map_equiv(a.fields@, b.fields@)
    &&& toks_equiv(a.event_tokens@, b.event_tokens@)
    &&& toks_equiv(a.span_tokens@, b.span_tokens@)
}

/// Content equivalence of two field stores: the same cache bytes and
/// fields equal by content.
pub open spec fn store_equiv(a: FieldStore, b: FieldStore) -> bool {
    &&& a.cache_view() == b.cache_view()
    &&& map_equiv(a.fields_view(), b.fields_view())
}

/// Content equivalence of two span chains.
pub open spec fn spans_equiv(a: Seq<FieldStore>, b: Seq<FieldStore>) -> bool {
    &&& a.len() == b.len()
    &&& forall|i: int| 0 <= i < a.len() ==> store_equiv(#[trigger] a[i], b[i])
}

/// Content equivalence of two producers: constants are compared by
/// content; every other producer carries plain data.
pub open spec fn producer_equiv(a: JsonValue, b: JsonValue) -> bool {
    match (a, b) {
        (JsonValue::Serde(x), JsonValue::Serde(y)) => val_eq(x, y),
        _ => a == b,
    }
}

/// Content equivalence of two schemas.
pub open spec fn layer_equiv(a: JsonLayer, b: JsonLayer) -> bool {
    &&& a.keyed_view().len() == b.keyed_view().len()
    &&& forall|i: int|
        0 <= i < a.keyed_view().len() ==> (#[trigger] a.keyed_view()[i]).0.bytes()
            == b.keyed_view()[i].0.bytes() && producer_equiv(a.keyed_view()[i].1, b.keyed_view()[i].1)
    &&& a.flat_view().len() == b.flat_view().len()
    &&& forall|i: int|
        0 <= i < a.flat_view().len() ==> (#[trigger] a.flat_view()[i]).0 == b.flat_view()[i].0
            && producer_equiv(a.flat_view()[i].1, b.flat_view()[i].1)
}

/// Equivalent token tables resolve every token alike.
proof fn lemma_tok_lookup_equiv(a: Seq<(u64, Value)>, b: Seq<(u64, Value)>, id: u64)
    requires
        toks_equiv(a, b),
    ensures
        match (tok_lookup(a, id), tok_lookup(b, id)) {
            (Option::Some(x), Option::Some(y)) => val_eq(x, y),
            (Option::None, Option::None) => true,
            _ => false,
        },
    decreases a.len(),
{
    if a.len() > 0 {
        assert(a[0].0 == b[0].0 && val_eq(a[0].1, b[0].1));
        assert(a.first() == a[0] && b.first() == b[0]);
        if a.first().0 != id {
            assert(toks_equiv(a.drop_first(), b.drop_first())) by {
                assert(forall|i: int|
                    0 <= i < a.drop_first().len() ==> (#[trigger] a.drop_first()[i]).0
                        == b.drop_first()[i].0 && val_eq(a.drop_first()[i].1, b.drop_first()[i].1));
            }
            lemma_tok_lookup_equiv(a.drop_first(), b.drop_first(), id);
        }
    }
}

/// Writing equivalent field runs over equivalent maps yields
/// equivalent maps.
proof fn lemma_insert_all_equiv(
    ma: Seq<(Vec<u8>, Value)>,
    mb: Seq<(Vec<u8>, Value)>,
    fa: Seq<(Vec<u8>, Value)>,
    fb: Seq<(Vec<u8>, Value)>,
)
    requires
        map_equiv(ma, mb),
        map_equiv(fa, fb),
    ensures
        map_equiv(insert_all(ma, fa), insert_all(mb, fb)),
    decreases fa.len(),
{
    if fa.len() > 0 {
        assert(map_equiv(fa.drop_last(), fb.drop_last())) by {
            assert(forall|i: int|
                0 <= i < fa.drop_last().len() ==> (#[trigger] fa.drop_last()[i]).0@
                    == fb.drop_last()[i].0@ && val_eq(fa.drop_last()[i].1, fb.drop_last()[i].1));
        }
        lemma_insert_all_equiv(ma, mb, fa.drop_last(), fb.drop_last());
        assert(fa[fa.len() - 1].0@ == fb[fb.len() - 1].0@ && val_eq(
            fa[fa.len() - 1].1,
            fb[fb.len() - 1].1,
        ));
        crate::fields::lemma_insert_equiv(
            insert_all(ma, fa.drop_last()),
            insert_all(mb, fb.drop_last()),
            fa.last(),
            fb.last(),
        );
    }
}

/// Equivalent span chains merge to equivalent field maps.
proof fn lemma_merged_equiv(sa: Seq<FieldStore>, sb: Seq<FieldStore>)
    requires
        spans_equiv(sa, sb),
    ensures
        map_equiv(merged_fields(sa), merged_fields(sb)),
    decreases sa.len(),
{
    if sa.len() == 0 {
        assert(map_equiv(merged_fields(sa), merged_fields(sb)));
    } else {
        assert(spans_equiv(sa.drop_last(), sb.drop_last())) by {
            assert(forall|i: int|
                0 <= i < sa.drop_last().len() ==> store_equiv(
                    #[trigger] sa.drop_last()[i],
                    sb.drop_last()[i],
                ));
        }
        lemma_merged_equiv(sa.drop_last(), sb.drop_last());
        assert(store_equiv(sa[sa.len() - 1], sb[sb.len() - 1]));
        lemma_insert_all_equiv(
            merged_fields(sa.drop_last()),
            merged_fields(sb.drop_last()),
            sa.last().fields_view(),
            sb.last().fields_view(),
        );
    }
}

/// Equivalent span chains expose the same cached renderings.
proof fn lemma_span_caches_equiv(sa: Seq<FieldStore>, sb: Seq<FieldStore>)
    requires
        spans_equiv(sa, sb),
    ensures
        span_caches(sa) == span_caches(sb),
    decreases sa.len(),
{
    if sa.len() > 0 {
        assert(spans_equiv(sa.drop_last(), sb.drop_last())) by {
            assert(forall|i: int|
                0 <= i < sa.drop_last().len() ==> store_equiv(
                    #[trigger] sa.drop_last()[i],
                    sb.drop_last()[i],
                ));
        }
        lemma_span_caches_equiv(sa.drop_last(), sb.drop_last());
        assert(store_equiv(sa[sa.len() - 1], sb[sb.len() - 1]));
        assert(span_caches(sa) =~= span_caches(sb));
    }
}

/// Equivalent producers resolve to the same value bytes against
/// equivalent events and span chains.
proof fn lemma_producer_bytes_equiv(
    pa: JsonValue,
    pb: JsonValue,
    eva: EventData,
    evb: EventData,
    sa: Seq<FieldStore>,
    sb: Seq<FieldStore>,
)
    requires
        producer_equiv(pa, pb),
        event_equiv(eva, evb),
        spans_equiv(sa, sb),
    ensures
        producer_bytes(pa, eva, sa) == producer_bytes(pb, evb, sb),
{
    match (pa, pb) {
        (JsonValue::Serde(x), JsonValue::Serde(y)) => {
            lemma_val_eq_render(x, y);
        },
        (JsonValue::DynamicFromEvent(q), _) => {
            match q {
                EventQuery::Timestamp => {},
                EventQuery::Fields => {
                    lemma_members_equiv_render(eva.fields@, evb.fields@);
                },
                EventQuery::Token(id) => {
                    lemma_tok_lookup_equiv(eva.event_tokens@, evb.event_tokens@, id);
                    match (tok_lookup(eva.event_tokens@, id), tok_lookup(evb.event_tokens@, id)) {
                        (Option::Some(x), Option::Some(y)) => {
                            lemma_val_eq_render(x, y);
                        },
                        _ => {},
                    }
                },
            }
        },
        (JsonValue::DynamicFromSpan(q), _) => {
            if sa.len() > 0 {
                match q {
                    SpanQuery::MergedFields => {
                        lemma_merged_equiv(sa, sb);
                        lemma_members_equiv_render(merged_fields(sa), merged_fields(sb));
                    },
                    SpanQuery::Token(id) => {
                        lemma_tok_lookup_equiv(eva.span_tokens@, evb.span_tokens@, id);
                        match (
                            tok_lookup(eva.span_tokens@, id),
                            tok_lookup(evb.span_tokens@, id),
                        ) {
                            (Option::Some(x), Option::Some(y)) => {
                                lemma_val_eq_render(x, y);
                            },
                            _ => {},
                        }
                    },
                }
            }
        },
        (JsonValue::DynamicCachedFromSpan(q), _) => {
            if sa.len() > 0 {
                match q {
                    CachedQuery::CurrentSpan => {
                        assert(store_equiv(sa[sa.len() - 1], sb[sb.len() - 1]));
                    },
                    CachedQuery::SpanList => {
                        lemma_span_caches_equiv(sa, sb);
                    },
                }
            }
        },
        (JsonValue::DynamicRawFromEvent(_), _) => {},
        _ => {},
    }
}

/// Equivalent producers splice the same members when flattened.
proof fn lemma_producer_members_equiv(
    pa: JsonValue,
    pb: JsonValue,
    eva: EventData,
    evb: EventData,
    sa: Seq<FieldStore>,
    sb: Seq<FieldStore>,
)
    requires
        producer_equiv(pa, pb),
        event_equiv(eva, evb),
        spans_equiv(sa, sb),
    ensures
        producer_members(pa, eva, sa) == producer_members(pb, evb, sb),
{
    match (pa, pb) {
        (JsonValue::Serde(x), JsonValue::Serde(y)) => {
            match (x, y) {
                (Value::Obj(mx), Value::Obj(my)) => {
                    crate::value::lemma_members_equiv_render(mx@, my@);
                },
                _ => {},
            }
        },
        (JsonValue::DynamicFromEvent(q), _) => {
            match q {
                EventQuery::Timestamp => {},
                EventQuery::Fields => {
                    lemma_members_equiv_render(eva.fields@, evb.fields@);
                },
                EventQuery::Token(id) => {
                    lemma_tok_lookup_equiv(eva.event_tokens@, evb.event_tokens@, id);
                    match (tok_lookup(eva.event_tokens@, id), tok_lookup(evb.event_tokens@, id)) {
                        (Option::Some(x), Option::Some(y)) => {
                            match (x, y) {
                                (Value::Obj(mx), Value::Obj(my)) => {
                                    lemma_members_equiv_render(mx@, my@);
                                },
                                _ => {},
                            }
                        },
                        _ => {},
                    }
                },
            }
        },
        (JsonValue::DynamicFromSpan(q), _) => {
            if sa.len() > 0 {
                match q {
                    SpanQuery::MergedFields => {
                        lemma_merged_equiv(sa, sb);
                        lemma_members_equiv_render(merged_fields(sa), merged_fields(sb));
                    },
                    SpanQuery::Token(id) => {
                        lemma_tok_lookup_equiv(eva.span_tokens@, evb.span_tokens@, id);
                        match (
                            tok_lookup(eva.span_tokens@, id),
                            tok_lookup(evb.span_tokens@, id),
                        ) {
                            (Option::Some(x), Option::Some(y)) => {
                                match (x, y) {
                                    (Value::Obj(mx), Value::Obj(my)) => {
                                        lemma_members_equiv_render(mx@, my@);
                                    },
                                    _ => {},
                                }
                            },
                            _ => {},
                        }
                    },
                }
            }
        },
        (JsonValue::DynamicCachedFromSpan(q), _) => {
            if sa.len() > 0 {
                match q {
                    CachedQuery::CurrentSpan => {
                        assert(store_equiv(sa[sa.len() - 1], sb[sb.len() - 1]));
                        lemma_members_equiv_render(
                            sa.last().fields_view(),
                            sb.last().fields_view(),
                        );
                    },
                    CachedQuery::SpanList => {},
                }
            }
        },
        (JsonValue::DynamicRawFromEvent(_), _) => {},
        _ => {},
    }
}

proof fn lemma_keyed_frags_equiv(
    ea: Seq<(SchemaKey, JsonValue)>,
    eb: Seq<(SchemaKey, JsonValue)>,
    eva: EventData,
    evb: EventData,
    sa: Seq<FieldStore>,
    sb: Seq<FieldStore>,
)
    requires
        ea.len() == eb.len(),
        forall|i: int|
            0 <= i < ea.len() ==> (#[trigger] ea[i]).0.bytes() == eb[i].0.bytes() && producer_equiv(
                ea[i].1,
                eb[i].1,
            ),
        event_equiv(eva, evb),
        spans_equiv(sa, sb),
    ensures
        keyed_frags(ea, eva, sa) == keyed_frags(eb, evb, sb),
    decreases ea.len(),
{
    if ea.len() > 0 {
        assert(forall|i: int|
            0 <= i < ea.drop_last().len() ==> (#[trigger] ea.drop_last()[i]).0.bytes()
                == eb.drop_last()[i].0.bytes() && producer_equiv(
                ea.drop_last()[i].1,
                eb.drop_last()[i].1,
            ));
        lemma_keyed_frags_equiv(ea.drop_last(), eb.drop_last(), eva, evb, sa, sb);
        assert((ea[ea.len() - 1]).0.bytes() == eb[eb.len() - 1].0.bytes() && producer_equiv(
            ea[ea.len() - 1].1,
            eb[eb.len() - 1].1,
        ));
        lemma_producer_bytes_equiv(ea.last().1, eb.last().1, eva, evb, sa, sb);
        assert(keyed_fragment(ea.last(), eva, sa) == keyed_fragment(eb.last(), evb, sb));
    }
}

proof fn lemma_flat_frags_equiv(
    ea: Seq<(FlatSchemaKey, JsonValue)>,
    eb: Seq<(FlatSchemaKey, JsonValue)>,
    eva: EventData,
    evb: EventData,
    sa: Seq<FieldStore>,
    sb: Seq<FieldStore>,
)
    requires
        ea.len() == eb.len(),
        forall|i: int|
            0 <= i < ea.len() ==> (#[trigger] ea[i]).0 == eb[i].0 && producer_equiv(
                ea[i].1,
                eb[i].1,
            ),
        event_equiv(eva, evb),
        spans_equiv(sa, sb),
    ensures
        flat_frags(ea, eva, sa) == flat_frags(eb, evb, sb),
    decreases ea.len(),
{
    if ea.len() > 0 {
        assert(forall|i: int|
            0 <= i < ea.drop_last().len() ==> (#[trigger] ea.drop_last()[i]).0
                == eb.drop_last()[i].0 && producer_equiv(ea.drop_last()[i].1, eb.drop_last()[i].1));
        lemma_flat_frags_equiv(ea.drop_last(), eb.drop_last(), eva, evb, sa, sb);
        assert((ea[ea.len() - 1]).0 == eb[eb.len() - 1].0 && producer_equiv(
            ea[ea.len() - 1].1,
            eb[eb.len() - 1].1,
        ));
        lemma_producer_members_equiv(ea.last().1, eb.last().1, eva, evb, sa, sb);
    }
}

/// Rendering is a function of content alone: two schemas, events and
/// span chains that agree in content render byte-identical lines,
/// whatever the storage that holds them.
pub proof fn lemma_render_line_equiv(
    la: JsonLayer,
    lb: JsonLayer,
    eva: EventData,
    evb: EventData,
    sa: Seq<FieldStore>,
    sb: Seq<FieldStore>,
)
    requires
        layer_equiv(la, lb),
        event_equiv(eva, evb),
        spans_equiv(sa, sb),
    ensures
        render_line(la, eva, sa) == render_line(lb, evb, sb),
{
    lemma_keyed_frags_equiv(la.keyed_view(), lb.keyed_view(), eva, evb, sa, sb);
    lemma_flat_frags_equiv(la.flat_view(), lb.flat_view(), eva, evb, sa, sb);
}

/// Strict lexicographic order of the keys of a field map.
pub open spec fn sorted_keys(m: Seq<(Vec<u8>, Value)>) -> bool {
    forall|i: int, j: int| 0 <= i < j < m.len() ==> lex_lt(m[i].0@, m[j].0@)
}

/// Ordered insertion keeps a field map in strict key order, and every
/// entry of the result is the inserted one or one of the old entries.
/// Since maps start empty and change only through this insertion, the
/// member order of every rendered object is the lexicographic key
/// order, which makes the output order deterministic.
pub proof fn lemma_insert_keeps_sorted(m: Seq<(Vec<u8>, Value)>, kv: (Vec<u8>, Value))
    requires
        sorted_keys(m),
    ensures
        sorted_keys(spec_insert(m, kv)),
        forall|t: int|
            0 <= t < spec_insert(m, kv).len() ==> spec_insert(m, kv)[t] == kv || exists|s: int|
                0 <= s < m.len() && spec_insert(m, kv)[t] == #[trigger] m[s],
    decreases m.len(),
{
    let r = spec_insert(m, kv);
    if m.len() == 0 {
        assert(r == seq![kv]);
        assert(r[0] == kv);
    } else if lex_lt(m.first().0@, kv.0@) {
        assert(sorted_keys(m.drop_first())) by {
            assert(forall|i: int, j: int|
                0 <= i < j < m.drop_first().len() ==> lex_lt(
                    (#[trigger] m.drop_first()[i]).0@,
                    (#[trigger] m.drop_first()[j]).0@,
                ));
        }
        lemma_insert_keeps_sorted(m.drop_first(), kv);
        let inner = spec_insert(m.drop_first(), kv);
        assert(r == seq![m.first()] + inner);
        assert(forall|t: int| 1 <= t < r.len() ==> r[t] == #[trigger] inner[t - 1]);
        assert forall|t: int| 0 <= t < r.len() implies r[t] == kv || exists|s: int|
            0 <= s < m.len() && r[t] == #[trigger] m[s] by {
            if t == 0 {
                assert(r[t] == m[0]);
            } else {
                assert(inner[t - 1] == kv || exists|s: int|
                    0 <= s < m.drop_first().len() && inner[t - 1] == #[trigger] m.drop_first()[s]);
                if inner[t - 1] != kv {
                    let s = choose|s: int|
                        0 <= s < m.drop_first().len() && inner[t - 1] == #[trigger] m.drop_first()[
                            s
                        ];
                    assert(m.drop_first()[s] == m[s + 1]);
                }
            }
        }
        assert forall|i: int, j: int| 0 <= i < j < r.len() implies lex_lt(r[i].0@, r[j].0@) by {
            if i == 0 {
                assert(r[j] == inner[j - 1]);
                if inner[j - 1] == kv {
                    assert(lex_lt(r[0].0@, kv.0@));
                } else {
                    let s = choose|s: int|
                        0 <= s < m.drop_first().len() && inner[j - 1] == #[trigger] m.drop_first()[
                            s
                        ];
                    assert(m.drop_first()[s] == m[s + 1]);
                    assert(lex_lt(m[0].0@, m[s + 1].0@));
                }
            } else {
                assert(r[i] == inner[i - 1] && r[j] == inner[j - 1]);
                assert(lex_lt(inner[i - 1].0@, inner[j - 1].0@));
            }
        }
    } else if m.first().0@ == kv.0@ {
        assert(r == seq![kv] + m.drop_first());
        assert(forall|t: int| 1 <= t < r.len() ==> r[t] == #[trigger] m[t]);
        assert forall|i: int, j: int| 0 <= i < j < r.len() implies lex_lt(r[i].0@, r[j].0@) by {
            if i == 0 {
                assert(r[j] == m[j]);
                assert(lex_lt(m[0].0@, m[j].0@));
            } else {
                assert(lex_lt(m[i].0@, m[j].0@));
            }
        }
    } else {
        assert(r == seq![kv] + m);
        lemma_lex_lt_total(m.first().0@, kv.0@);
        assert(lex_lt(kv.0@, m.first().0@));
        assert(forall|t: int| 1 <= t < r.len() ==> r[t] == #[trigger] m[t - 1]);
        assert forall|i: int, j: int| 0 <= i < j < r.len() implies lex_lt(r[i].0@, r[j].0@) by {
            if i == 0 {
                assert(r[j] == m[j - 1]);
                if j - 1 == 0 {
                } else {
                    assert(lex_lt(m[0].0@, m[j - 1].0@));
                    lemma_lex_lt_trans(kv.0@, m[0].0@, m[j - 1].0@);
                }
            } else {
                assert(lex_lt(m[i - 1].0@, m[j - 1].0@));
            }
        }
    }
}

/// Strict lexicographic order of the keys of the keyed schema.
pub open spec fn sorted_schema_keys(m: Seq<(SchemaKey, JsonValue)>) -> bool {
    forall|i: int, j: int| 0 <= i < j < m.len() ==> lex_lt(m[i].0.bytes(), m[j].0.bytes())
}

/// Installing a producer keeps the keyed schema in strict key order.
/// Since schemas start empty and gain keyed entries only through this
/// insertion, producers are rendered in lexicographic key order: the
/// ordering guarantee for the emitted members.
pub proof fn lemma_keyed_insert_keeps_sorted(
    m: Seq<(SchemaKey, JsonValue)>,
    kv: (SchemaKey, JsonValue),
)
    requires
        sorted_schema_keys(m),
    ensures
        sorted_schema_keys(crate::layer::keyed_insert(m, kv)),
    decreases m.len(),
{
    let r = crate::layer::keyed_insert(m, kv);
    if m.len() == 0 {
        assert(r == seq![kv]);
    } else if lex_lt(m.first().0.bytes(), kv.0.bytes()) {
        assert(sorted_schema_keys(m.drop_first())) by {
            assert(forall|i: int, j: int|
                0 <= i < j < m.drop_first().len() ==> lex_lt(
                    (#[trigger] m.drop_first()[i]).0.bytes(),
                    (#[trigger] m.drop_first()[j]).0.bytes(),
                ));
        }
        lemma_keyed_insert_keeps_sorted(m.drop_first(), kv);
        lemma_keyed_insert_members(m.drop_first(), kv);
        let inner = crate::layer::keyed_insert(m.drop_first(), kv);
        assert(r == seq![m.first()] + inner);
        assert(forall|t: int| 1 <= t < r.len() ==> r[t] == #[trigger] inner[t - 1]);
        assert forall|i: int, j: int| 0 <= i < j < r.len() implies lex_lt(
            r[i].0.bytes(),
            r[j].0.bytes(),
        ) by {
            if i == 0 {
                assert(r[j] == inner[j - 1]);
                if inner[j - 1] == kv {
                    assert(lex_lt(r[0].0.bytes(), kv.0.bytes()));
                } else {
                    let s = choose|s: int|
                        0 <= s < m.drop_first().len() && inner[j - 1] == #[trigger] m.drop_first()[
                            s
                        ];
                    assert(m.drop_first()[s] == m[s + 1]);
                    assert(lex_lt(m[0].0.bytes(), m[s + 1].0.bytes()));
                }
            } else {
                assert(r[i] == inner[i - 1] && r[j] == inner[j - 1]);
                assert(lex_lt(inner[i - 1].0.bytes(), inner[j - 1].0.bytes()));
            }
        }
    } else if m.first().0.bytes() == kv.0.bytes() {
        assert(r == seq![kv] + m.drop_first());
        assert(forall|t: int| 1 <= t < r.len() ==> r[t] == #[trigger] m[t]);
        assert forall|i: int, j: int| 0 <= i < j < r.len() implies lex_lt(
            r[i].0.bytes(),
            r[j].0.bytes(),
        ) by {
            if i == 0 {
                assert(r[j] == m[j]);
                assert(lex_lt(m[0].0.bytes(), m[j].0.bytes()));
            } else {
                assert(lex_lt(m[i].0.bytes(), m[j].0.bytes()));
            }
        }
    } else {
        assert(r == seq![kv] + m);
        lemma_lex_lt_total(m.first().0.bytes(), kv.0.bytes());
        assert(lex_lt(kv.0.bytes(), m.first().0.bytes()));
        assert(forall|t: int| 1 <= t < r.len() ==> r[t] == #[trigger] m[t - 1]);
        assert forall|i: int, j: int| 0 <= i < j < r.len() implies lex_lt(
            r[i].0.bytes(),
            r[j].0.bytes(),
        ) by {
            if i == 0 {
                assert(r[j] == m[j - 1]);
                if j - 1 == 0 {
                } else {
                    assert(lex_lt(m[0].0.bytes(), m[j - 1].0.bytes()));
                    lemma_lex_lt_trans(kv.0.bytes(), m[0].0.bytes(), m[j - 1].0.bytes());
                }
            } else {
                assert(lex_lt(m[i - 1].0.bytes(), m[j - 1].0.bytes()));
            }
        }
    }
}

/// Every entry of an installation's result is the installed one or one
/// of the old entries.
proof fn lemma_keyed_insert_members(m: Seq<(SchemaKey, JsonValue)>, kv: (SchemaKey, JsonValue))
    ensures
        forall|t: int|
            0 <= t < crate::layer::keyed_insert(m, kv).len() ==> crate::layer::keyed_insert(
                m,
                kv,
            )[t] == kv || exists|s: int|
                0 <= s < m.len() && crate::layer::keyed_insert(m, kv)[t] == #[trigger] m[s],
    decreases m.len(),
{
    let r = crate::layer::keyed_insert(m, kv);
    if m.len() == 0 {
        assert(r == seq![kv]);
        assert(r[0] == kv);
    } else if lex_lt(m.first().0.bytes(), kv.0.bytes()) {
        lemma_keyed_insert_members(m.drop_first(), kv);
        let inner = crate::layer::keyed_insert(m.drop_first(), kv);
        assert(r == seq![m.first()] + inner);
        assert forall|t: int| 0 <= t < r.len() implies r[t] == kv || exists|s: int|
            0 <= s < m.len() && r[t] == #[trigger] m[s] by {
            if t == 0 {
                assert(r[t] == m[0]);
            } else {
                assert(r[t] == inner[t - 1]);
                if inner[t - 1] != kv {
                    let s = choose|s: int|
                        0 <= s < m.drop_first().len() && inner[t - 1] == #[trigger] m.drop_first()[
                            s
                        ];
                    assert(m.drop_first()[s] == m[s + 1]);
                }
            }
        }
    } else if m.first().0.bytes() == kv.0.bytes() {
        assert(r == seq![kv] + m.drop_first());
        assert forall|t: int| 0 <= t < r.len() implies r[t] == kv || exists|s: int|
            0 <= s < m.len() && r[t] == #[trigger] m[s] by {
            if t > 0 {
                assert(r[t] == m[t]);
            }
        }
    } else {
        assert(r == seq![kv] + m);
        assert forall|t: int| 0 <= t < r.len() implies r[t] == kv || exists|s: int|
            0 <= s < m.len() && r[t] == #[trigger] m[s] by {
            if t > 0 {
                assert(r[t] == m[t - 1]);
            }
        }
    }
}

} // verus!
