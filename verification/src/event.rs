//! The event renderer: one pass over the schema, writing one JSON object
//! per event.
//!
//! Every producer resolves to an optional fragment; absent fragments are
//! omitted entirely, so no key is ever bound to `null` by omission and no
//! dangling comma is written. Cached span renderings are spliced verbatim.

use vstd::prelude::*;

use crate::bytes::push_subrange;
use crate::cursor::Cursor;
use crate::fields::{
    merge_spans, merged_fields, push_members, push_members_raw, push_object, render_object,
    FieldMap, FieldStore,
};
use crate::layer::{
    CachedQuery, EventQuery, FlatSchemaKey, JsonLayer, JsonValue, RawQuery, SchemaKey, SpanQuery,
};
use crate::num::{push_u64, render_u64};
use crate::value::{
    join_comma, lemma_members_equiv_render, push_string, render_members, render_string,
    render_value, render_value_into, Value,
};

verus! {

/// One event, modelled as plain values: its metadata details, its own
/// field map, and the values the caller's dynamic producers resolved to.
pub struct EventData {
    /// The formatted timestamp from the configured time source.
    pub timestamp: Option<Vec<u8>>,
    /// The event's level, as text.
    pub level: Vec<u8>,
    /// The event's target.
    pub target: Vec<u8>,
    /// The source file, when known.
    pub file: Option<Vec<u8>>,
    /// The source line, when known.
    pub line: Option<u64>,
    /// The reporting thread's name, when known.
    pub thread_name: Option<Vec<u8>>,
    /// The reporting thread's identifier, as text.
    pub thread_id: Option<Vec<u8>>,
    /// The event's own fields.
    pub fields: FieldMap,
    /// Resolved values of event-scoped dynamic producers, by token.
    pub event_tokens: Vec<(u64, Value)>,
    /// Resolved values of span-scoped dynamic producers, by token.
    pub span_tokens: Vec<(u64, Value)>,
}

impl EventData {
    /// An event with the given level and target and nothing else.
    pub fn new(level: Vec<u8>, target: Vec<u8>) -> (e: EventData)
        ensures
            e.level == level,
            e.target == target,
            e.timestamp is None,
            e.file is None,
            e.line is None,
            e.thread_name is None,
            e.thread_id is None,
            e.fields@ == Seq::<(Vec<u8>, Value)>::empty(),
            e.event_tokens@ == Seq::<(u64, Value)>::empty(),
            e.span_tokens@ == Seq::<(u64, Value)>::empty(),
    {
        let e = EventData {
            timestamp: Option::None,
            level,
            target,
            file: Option::None,
            line: Option::None,
            thread_name: Option::None,
            thread_id: Option::None,
            fields: FieldMap::new(),
            event_tokens: Vec::new(),
            span_tokens: Vec::new(),
        };
        proof {
            assert(e.event_tokens@ =~= Seq::<(u64, Value)>::empty());
            assert(e.span_tokens@ =~= Seq::<(u64, Value)>::empty());
        }
        e
    }
}

/// The first value resolved for `id`, if any.
pub open spec fn tok_lookup(ts: Seq<(u64, Value)>, id: u64) -> Option<Value>
    decreases ts.len(),
{
    if ts.len() == 0 {
        Option::None
    } else if ts.first().0 == id {
        Option::Some(ts.first().1)
    } else {
        tok_lookup(ts.drop_first(), id)
    }
}

/// Looks a resolved token value up.
fn get_token(ts: &Vec<(u64, Value)>, id: u64) -> (r: Option<&Value>)
    ensures
        match r {
            Option::Some(v) => tok_lookup(ts@, id) == Option::Some(*v),
            Option::None => tok_lookup(ts@, id) is None,
        },
{
    let n = ts.len();
    let mut i: usize = 0;
    proof {
        assert(ts@.subrange(0, ts@.len() as int) =~= ts@);
    }
    while i < n
        invariant
            n == ts@.len(),
            i <= n,
            tok_lookup(ts@, id) == tok_lookup(ts@.subrange(i as int, n as int), id),
        decreases n - i,
    {
        let ghost rest = ts@.subrange(i as int, n as int);
        proof {
            assert(rest.first() == ts@[i as int]);
            assert(rest.drop_first() =~= ts@.subrange(i + 1, n as int));
        }
        if ts[i].0 == id {
            return Option::Some(&ts[i].1);
        }
        i += 1;
    }
    proof {
        assert(ts@.subrange(n as int, n as int) =~= Seq::<(u64, Value)>::empty());
    }
    Option::None
}

/// The cached renderings of a span chain, root first.
pub open spec fn span_caches(spans: Seq<FieldStore>) -> Seq<Seq<u8>>
    decreases spans.len(),
{
    if spans.len() == 0 {
        Seq::empty()
    } else {
        span_caches(spans.drop_last()) + seq![spans.last().cache_view()]
    }
}

/// The value bytes an event-scoped producer resolves to.
pub open spec fn event_value_bytes(q: EventQuery, ev: EventData) -> Option<Seq<u8>> {
    match q {
        EventQuery::Timestamp => match ev.timestamp {
            Option::Some(t) => Option::Some(render_string(t@)),
            Option::None => Option::None,
        },
        EventQuery::Fields => Option::Some(render_object(ev.fields@)),
        EventQuery::Token(id) => match tok_lookup(ev.event_tokens@, id) {
            Option::Some(v) => Option::Some(render_value(v)),
            Option::None => Option::None,
        },
    }
}

/// The value bytes a span-scoped producer resolves to, given at least
/// one enclosing span.
pub open spec fn span_value_bytes(q: SpanQuery, ev: EventData, spans: Seq<FieldStore>) -> Option<
    Seq<u8>,
> {
    match q {
        SpanQuery::MergedFields => Option::Some(render_object(merged_fields(spans))),
        SpanQuery::Token(id) => match tok_lookup(ev.span_tokens@, id) {
            Option::Some(v) => Option::Some(render_value(v)),
            Option::None => Option::None,
        },
    }
}

/// The value bytes a cached producer splices, given at least one
/// enclosing span.
pub open spec fn cached_value_bytes(q: CachedQuery, spans: Seq<FieldStore>) -> Seq<u8> {
    match q {
        CachedQuery::CurrentSpan => spans.last().cache_view(),
        CachedQuery::SpanList => seq![0x5bu8] + join_comma(span_caches(spans)) + seq![0x5du8],
    }
}

/// The value bytes a raw event-detail producer writes.
pub open spec fn raw_value_bytes(q: RawQuery, ev: EventData) -> Option<Seq<u8>> {
    match q {
        RawQuery::Target => Option::Some(render_string(ev.target@)),
        RawQuery::Level => Option::Some(render_string(ev.level@)),
        RawQuery::File => match ev.file {
            Option::Some(f) => Option::Some(render_string(f@)),
            Option::None => Option::None,
        },
        RawQuery::LineNumber => match ev.line {
            Option::Some(n) => Option::Some(render_u64(n)),
            Option::None => Option::None,
        },
        RawQuery::ThreadName => match ev.thread_name {
            Option::Some(t) => Option::Some(render_string(t@)),
            Option::None => Option::None,
        },
        RawQuery::ThreadId => match ev.thread_id {
            Option::Some(t) => Option::Some(render_string(t@)),
            Option::None => Option::None,
        },
    }
}

/// The value bytes a producer resolves to, or nothing when the producer
/// is skipped for this event.
pub open spec fn producer_bytes(p: JsonValue, ev: EventData, spans: Seq<FieldStore>) -> Option<
    Seq<u8>,
> {
    match p {
        JsonValue::Serde(v) => Option::Some(render_value(v)),
        JsonValue::DynamicFromEvent(q) => event_value_bytes(q, ev),
        JsonValue::DynamicFromSpan(q) => if spans.len() == 0 {
            Option::None
        } else {
            span_value_bytes(q, ev, spans)
        },
        JsonValue::DynamicCachedFromSpan(q) => if spans.len() == 0 {
            Option::None
        } else {
            Option::Some(cached_value_bytes(q, spans))
        },
        JsonValue::DynamicRawFromEvent(q) => raw_value_bytes(q, ev),
    }
}

/// The fragment a keyed entry contributes: its rendered key, a colon,
/// and the producer's value bytes; or nothing.
pub open spec fn keyed_fragment(e: (SchemaKey, JsonValue), ev: EventData, spans: Seq<FieldStore>) -> Option<
    Seq<u8>,
> {
    match producer_bytes(e.1, ev, spans) {
        Option::Some(b) => Option::Some(render_string(e.0.bytes()) + seq![0x3au8] + b),
        Option::None => Option::None,
    }
}

/// The members a flattened producer splices: the member list of the
/// object it resolves to. An absent value, a value that is not an
/// object, and an object without members all contribute nothing.
pub open spec fn producer_members(p: JsonValue, ev: EventData, spans: Seq<FieldStore>) -> Option<
    Seq<u8>,
> {
    match p {
        JsonValue::Serde(v) => match v {
            Value::Obj(m) => if m@.len() == 0 {
                Option::None
            } else {
                Option::Some(render_members(m@))
            },
            _ => Option::None,
        },
        JsonValue::DynamicFromEvent(q) => match q {
            EventQuery::Timestamp => Option::None,
            EventQuery::Fields => if ev.fields@.len() == 0 {
                Option::None
            } else {
                Option::Some(render_members(ev.fields@))
            },
            EventQuery::Token(id) => match tok_lookup(ev.event_tokens@, id) {
                Option::Some(v) => match v {
                    Value::Obj(m) => if m@.len() == 0 {
                        Option::None
                    } else {
                        Option::Some(render_members(m@))
                    },
                    _ => Option::None,
                },
                Option::None => Option::None,
            },
        },
        JsonValue::DynamicFromSpan(q) => if spans.len() == 0 {
            Option::None
        } else {
            match q {
                SpanQuery::MergedFields => if merged_fields(spans).len() == 0 {
                    Option::None
                } else {
                    Option::Some(render_members(merged_fields(spans)))
                },
                SpanQuery::Token(id) => match tok_lookup(ev.span_tokens@, id) {
                    Option::Some(v) => match v {
                        Value::Obj(m) => if m@.len() == 0 {
                            Option::None
                        } else {
                            Option::Some(render_members(m@))
                        },
                        _ => Option::None,
                    },
                    Option::None => Option::None,
                },
            }
        },
        JsonValue::DynamicCachedFromSpan(q) => if spans.len() == 0 {
            Option::None
        } else {
            match q {
                CachedQuery::CurrentSpan => if spans.last().fields_view().len() == 0 {
                    Option::None
                } else {
                    Option::Some(render_members(spans.last().fields_view()))
                },
                CachedQuery::SpanList => Option::None,
            }
        },
        JsonValue::DynamicRawFromEvent(_) => Option::None,
    }
}

/// The fragments the keyed entries contribute, in order.
pub open spec fn keyed_frags(
    entries: Seq<(SchemaKey, JsonValue)>,
    ev: EventData,
    spans: Seq<FieldStore>,
) -> Seq<Seq<u8>>
    decreases entries.len(),
{
    if entries.len() == 0 {
        Seq::empty()
    } else {
        keyed_frags(entries.drop_last(), ev, spans) + (match keyed_fragment(
            entries.last(),
            ev,
            spans,
        ) {
            Option::Some(f) => seq![f],
            Option::None => Seq::empty(),
        })
    }
}

/// The fragments the flattened entries contribute, in order.
pub open spec fn flat_frags(
    entries: Seq<(FlatSchemaKey, JsonValue)>,
    ev: EventData,
    spans: Seq<FieldStore>,
) -> Seq<Seq<u8>>
    decreases entries.len(),
{
    if entries.len() == 0 {
        Seq::empty()
    } else {
        flat_frags(entries.drop_last(), ev, spans) + (match producer_members(
            entries.last().1,
            ev,
            spans,
        ) {
            Option::Some(f) => seq![f],
            Option::None => Seq::empty(),
        })
    }
}

/// All fragments of one line: keyed entries first, then flattened ones.
pub open spec fn line_frags(l: JsonLayer, ev: EventData, spans: Seq<FieldStore>) -> Seq<Seq<u8>> {
    keyed_frags(l.keyed_view(), ev, spans) + flat_frags(l.flat_view(), ev, spans)
}

/// One rendered log line: a JSON object holding the comma-joined
/// fragments, closed by a newline.
pub open spec fn render_line(l: JsonLayer, ev: EventData, spans: Seq<FieldStore>) -> Seq<u8> {
    seq![0x7bu8] + join_comma(line_frags(l, ev, spans)) + seq![0x7du8, 0x0au8]
}

/// Appends `(a comma when needed)"key":` to `out`.
fn member_prefix(out: &mut Vec<u8>, key: &Vec<u8>, wrote_any: bool)
    ensures
        final(out)@ == old(out)@ + (if wrote_any {
            seq![0x2cu8]
        } else {
            Seq::<u8>::empty()
        }) + render_string(key@) + seq![0x3au8],
{
    if wrote_any {
        out.push(0x2c);
    }
    push_string(out, key.as_slice());
    out.push(0x3a);
    proof {
        assert(out@ =~= old(out)@ + (if wrote_any {
            seq![0x2cu8]
        } else {
            Seq::<u8>::empty()
        }) + render_string(key@) + seq![0x3au8]);
    }
}


/// Joins fragments as a continuation: every fragment is preceded by a
/// comma except the first when nothing was written before.
pub open spec fn join_cont(fs: Seq<Seq<u8>>, wrote: bool) -> Seq<u8>
    decreases fs.len(),
{
    if fs.len() == 0 {
        Seq::empty()
    } else {
        join_cont(fs.drop_last(), wrote) + (if wrote || fs.drop_last().len() > 0 {
            seq![0x2cu8]
        } else {
            Seq::<u8>::empty()
        }) + fs.last()
    }
}

/// Starting from nothing written, the continuation join is the plain
/// comma join.
pub proof fn lemma_join_cont_fresh(fs: Seq<Seq<u8>>)
    ensures
        join_cont(fs, false) == join_comma(fs),
    decreases fs.len(),
{
    if fs.len() > 0 {
        lemma_join_cont_fresh(fs.drop_last());
    }
}

/// Joining two fragment runs joins the first and continues with the
/// second.
pub proof fn lemma_join_split(a: Seq<Seq<u8>>, b: Seq<Seq<u8>>)
    ensures
        join_comma(a + b) == join_comma(a) + join_cont(b, a.len() > 0),
    decreases b.len(),
{
    if b.len() == 0 {
        assert(a + b =~= a);
    } else {
        lemma_join_split(a, b.drop_last());
        let all = a + b;
        assert(all.drop_last() =~= a + b.drop_last());
        assert(all.last() == b.last());
        if all.len() == 1 {
            assert(a.len() == 0 && b.len() == 1);
            assert(join_comma(all) == all.last());
        }
    }
}

/// Appends the chain's cached span objects as a JSON array, root
/// first.
fn push_span_array(out: &mut Vec<u8>, spans: &Vec<FieldStore>)
    ensures
        final(out)@ == old(out)@ + seq![0x5bu8] + join_comma(span_caches(spans@)) + seq![0x5du8],
{
    let ghost orig = out@;
    out.push(0x5b);
    let m = spans.len();
    let ghost arr_pre = out@;
    let mut j: usize = 0;
    proof {
        assert(spans@.subrange(0, 0) =~= Seq::<FieldStore>::empty());
    }
    while j < m
        invariant
            m == spans@.len(),
            j <= m,
            arr_pre == orig + seq![0x5bu8],
            out@ == arr_pre + join_comma(span_caches(spans@.subrange(0, j as int))),
        decreases m - j,
    {
        if j > 0 {
            out.push(0x2c);
        }
        let cache = spans[j].serialized_bytes();
        out.extend_from_slice(cache.as_slice());
        proof {
            let cur = spans@.subrange(0, j + 1);
            assert(cur.drop_last() =~= spans@.subrange(0, j as int));
            assert(cur.last() == spans@[j as int]);
            let prevc = span_caches(spans@.subrange(0, j as int));
            assert(span_caches(cur) =~= prevc + seq![spans@[j as int].cache_view()]);
            let fsc = span_caches(cur);
            assert(fsc.drop_last() =~= prevc);
            assert(out@ =~= arr_pre + join_comma(fsc));
        }
        j += 1;
    }
    out.push(0x5d);
    proof {
        assert(spans@.subrange(0, spans@.len() as int) =~= spans@);
        assert(out@ =~= orig + seq![0x5bu8] + join_comma(span_caches(spans@)) + seq![0x5du8]);
    }
}

impl JsonLayer {
    /// Writes the fragments of the keyed entries, continuing an open
    /// object body; reports whether any member stands written after.
    #[verifier::rlimit(100)]
    #[verifier::loop_isolation(false)]
    fn write_keyed(&self, event: &EventData, spans: &Vec<FieldStore>, out: &mut Vec<u8>, wrote: bool) -> (nw: bool)
        requires
            forall|i: int| 0 <= i < spans@.len() ==> (#[trigger] spans@[i]).synced(),
        ensures
            final(out)@ == old(out)@ + join_cont(
                keyed_frags(self.keyed_view(), *event, spans@),
                wrote,
            ),
            nw == (wrote || keyed_frags(self.keyed_view(), *event, spans@).len() > 0),
    {
        let ghost orig = out@;
        let mut wrote_any = wrote;
        let n = self.keyed_len();
        let mut i: usize = 0;
        proof {
            assert(self.keyed_view().subrange(0, 0) =~= Seq::<(SchemaKey, JsonValue)>::empty());
            assert(out@ =~= orig + join_cont(
                keyed_frags(self.keyed_view().subrange(0, 0), *event, spans@),
                wrote,
            ));
        }
        while i < n
            invariant
                i <= n,
                out@ == orig + join_cont(
                    keyed_frags(self.keyed_view().subrange(0, i as int), *event, spans@),
                    wrote,
                ),
                wrote_any == (wrote || keyed_frags(
                    self.keyed_view().subrange(0, i as int),
                    *event,
                    spans@,
                ).len() > 0),
            decreases n - i,
        {
            let ghost out_pre = out@;
            let ghost wrote_pre = wrote_any;
            let ghost gentry = self.keyed_view()[i as int];
            let ghost gfrag = keyed_fragment(gentry, *event, spans@);
            let ghost mc: Seq<u8> = if wrote_pre {
                seq![0x2cu8]
            } else {
                Seq::<u8>::empty()
            };
            let entry = self.keyed_at(i);
            let key: &Vec<u8> = match &entry.0 {
                SchemaKey::Static(v) => v,
            };
            match &entry.1 {
                JsonValue::Serde(v) => {
                    member_prefix(out, key, wrote_any);
                    render_value_into(out, v);
                    wrote_any = true;
                },
                JsonValue::DynamicFromEvent(q) => match q {
                    EventQuery::Timestamp => match &event.timestamp {
                        Option::Some(t) => {
                            member_prefix(out, key, wrote_any);
                            push_string(out, t.as_slice());
                            wrote_any = true;
                        },
                        Option::None => {},
                    },
                    EventQuery::Fields => {
                        member_prefix(out, key, wrote_any);
                        push_object(out, &event.fields);
                        wrote_any = true;
                    },
                    EventQuery::Token(id) => match get_token(&event.event_tokens, *id) {
                        Option::Some(v) => {
                            member_prefix(out, key, wrote_any);
                            render_value_into(out, v);
                            wrote_any = true;
                        },
                        Option::None => {},
                    },
                },
                JsonValue::DynamicFromSpan(q) => {
                    if spans.len() > 0 {
                        match q {
                            SpanQuery::MergedFields => {
                                let merged = merge_spans(spans);
                                member_prefix(out, key, wrote_any);
                                push_object(out, &merged);
                                wrote_any = true;
                                proof {
                                    lemma_members_equiv_render(merged@, merged_fields(spans@));
                                }
                            },
                            SpanQuery::Token(id) => match get_token(&event.span_tokens, *id) {
                                Option::Some(v) => {
                                    member_prefix(out, key, wrote_any);
                                    render_value_into(out, v);
                                    wrote_any = true;
                                },
                                Option::None => {},
                            },
                        }
                    }
                },
                JsonValue::DynamicCachedFromSpan(q) => {
                    if spans.len() > 0 {
                        match q {
                            CachedQuery::CurrentSpan => {
                                member_prefix(out, key, wrote_any);
                                let last = spans.len() - 1;
                                let cache = spans[last].serialized_bytes();
                                out.extend_from_slice(cache.as_slice());
                                wrote_any = true;
                            },
                            CachedQuery::SpanList => {
                                member_prefix(out, key, wrote_any);
                                push_span_array(out, spans);
                                wrote_any = true;
                            },
                        }
                    }
                },
                JsonValue::DynamicRawFromEvent(q) => match q {
                    RawQuery::Target => {
                        member_prefix(out, key, wrote_any);
                        push_string(out, event.target.as_slice());
                        wrote_any = true;
                    },
                    RawQuery::Level => {
                        member_prefix(out, key, wrote_any);
                        push_string(out, event.level.as_slice());
                        wrote_any = true;
                    },
                    RawQuery::File => match &event.file {
                        Option::Some(f) => {
                            member_prefix(out, key, wrote_any);
                            push_string(out, f.as_slice());
                            wrote_any = true;
                        },
                        Option::None => {},
                    },
                    RawQuery::LineNumber => match &event.line {
                        Option::Some(l) => {
                            member_prefix(out, key, wrote_any);
                            push_u64(out, *l);
                            wrote_any = true;
                        },
                        Option::None => {},
                    },
                    RawQuery::ThreadName => match &event.thread_name {
                        Option::Some(t) => {
                            member_prefix(out, key, wrote_any);
                            push_string(out, t.as_slice());
                            wrote_any = true;
                        },
                        Option::None => {},
                    },
                    RawQuery::ThreadId => match &event.thread_id {
                        Option::Some(t) => {
                            member_prefix(out, key, wrote_any);
                            push_string(out, t.as_slice());
                            wrote_any = true;
                        },
                        Option::None => {},
                    },
                },
            }
            proof {
                let prev = keyed_frags(self.keyed_view().subrange(0, i as int), *event, spans@);
                let cur = self.keyed_view().subrange(0, i + 1);
                assert(cur.drop_last() =~= self.keyed_view().subrange(0, i as int));
                assert(cur.last() == gentry);
                let fs = keyed_frags(cur, *event, spans@);
                match gfrag {
                    Option::Some(f) => {
                        assert(fs =~= prev + seq![f]);
                        assert(fs.drop_last() =~= prev);
                        assert(fs.last() == f);
                        assert(out@ =~= out_pre + mc + f);
                        assert(join_cont(fs, wrote) == join_cont(prev, wrote) + mc + f);
                        assert(out@ =~= orig + join_cont(fs, wrote));
                    },
                    Option::None => {
                        assert(fs =~= prev);
                        assert(out@ == out_pre);
                        assert(out@ =~= orig + join_cont(fs, wrote));
                    },
                }
            }
            i += 1;
        }
        proof {
            assert(self.keyed_view().subrange(0, self.keyed_view().len() as int)
                =~= self.keyed_view());
        }
        wrote_any
    }

    /// Writes the fragments of the flattened entries, continuing an open
    /// object body; reports whether any member stands written after.
    #[verifier::rlimit(100)]
    #[verifier::loop_isolation(false)]
    fn write_flattened(&self, event: &EventData, spans: &Vec<FieldStore>, out: &mut Vec<u8>, wrote: bool) -> (nw: bool)
        requires
            forall|i: int| 0 <= i < spans@.len() ==> (#[trigger] spans@[i]).synced(),
        ensures
            final(out)@ == old(out)@ + join_cont(
                flat_frags(self.flat_view(), *event, spans@),
                wrote,
            ),
            nw == (wrote || flat_frags(self.flat_view(), *event, spans@).len() > 0),
    {
        let ghost orig = out@;
        let mut wrote_any = wrote;
        let fn_ = self.flat_len();
        let mut k: usize = 0;
        proof {
            assert(self.flat_view().subrange(0, 0) =~= Seq::<(FlatSchemaKey, JsonValue)>::empty());
            assert(out@ =~= orig + join_cont(
                flat_frags(self.flat_view().subrange(0, 0), *event, spans@),
                wrote,
            ));
        }
        while k < fn_
            invariant
                k <= fn_,
                out@ == orig + join_cont(
                    flat_frags(self.flat_view().subrange(0, k as int), *event, spans@),
                    wrote,
                ),
                wrote_any == (wrote || flat_frags(
                    self.flat_view().subrange(0, k as int),
                    *event,
                    spans@,
                ).len() > 0),
            decreases fn_ - k,
        {
            let ghost out_pre = out@;
            let ghost wrote_pre = wrote_any;
            let ghost gentry = self.flat_view()[k as int];
            let ghost gfrag = producer_members(gentry.1, *event, spans@);
            let ghost mc: Seq<u8> = if wrote_pre {
                seq![0x2cu8]
            } else {
                Seq::<u8>::empty()
            };
            let entry = self.flat_at(k);
            match &entry.1 {
                JsonValue::Serde(v) => match v {
                    Value::Obj(m) => {
                        if m.len() > 0 {
                            if wrote_any {
                                out.push(0x2c);
                            }
                            push_members_raw(out, m);
                            wrote_any = true;
                        }
                    },
                    _ => {},
                },
                JsonValue::DynamicFromEvent(q) => match q {
                    EventQuery::Timestamp => {},
                    EventQuery::Fields => {
                        if event.fields.len() > 0 {
                            if wrote_any {
                                out.push(0x2c);
                            }
                            push_members(out, &event.fields);
                            wrote_any = true;
                        }
                    },
                    EventQuery::Token(id) => match get_token(&event.event_tokens, *id) {
                        Option::Some(v) => match v {
                            Value::Obj(m) => {
                                if m.len() > 0 {
                                    if wrote_any {
                                        out.push(0x2c);
                                    }
                                    push_members_raw(out, m);
                                    wrote_any = true;
                                }
                            },
                            _ => {},
                        },
                        Option::None => {},
                    },
                },
                JsonValue::DynamicFromSpan(q) => {
                    if spans.len() > 0 {
                        match q {
                            SpanQuery::MergedFields => {
                                let merged = merge_spans(spans);
                                if merged.len() > 0 {
                                    if wrote_any {
                                        out.push(0x2c);
                                    }
                                    push_members(out, &merged);
                                    wrote_any = true;
                                    proof {
                                        lemma_members_equiv_render(
                                            merged@,
                                            merged_fields(spans@),
                                        );
                                    }
                                }
                            },
                            SpanQuery::Token(id) => match get_token(&event.span_tokens, *id) {
                                Option::Some(v) => match v {
                                    Value::Obj(m) => {
                                        if m.len() > 0 {
                                            if wrote_any {
                                                out.push(0x2c);
                                            }
                                            push_members_raw(out, m);
                                            wrote_any = true;
                                        }
                                    },
                                    _ => {},
                                },
                                Option::None => {},
                            },
                        }
                    }
                },
                JsonValue::DynamicCachedFromSpan(q) => {
                    if spans.len() > 0 {
                        match q {
                            CachedQuery::CurrentSpan => {
                                let last = spans.len() - 1;
                                if !spans[last].fields().is_empty() {
                                    if wrote_any {
                                        out.push(0x2c);
                                    }
                                    let cache = spans[last].serialized_bytes();
                                    let clen = cache.len();
                                    proof {
                                        assert(spans@[last as int].synced());
                                        assert(cache@ == seq![0x7bu8] + render_members(
                                            spans@[last as int].fields_view(),
                                        ) + seq![0x7du8]);
                                        assert(cache@.subrange(1, clen - 1) =~= render_members(
                                            spans@[last as int].fields_view(),
                                        ));
                                    }
                                    push_subrange(out, cache, 1, clen - 1);
                                    wrote_any = true;
                                }
                            },
                            CachedQuery::SpanList => {},
                        }
                    }
                },
                JsonValue::DynamicRawFromEvent(_) => {},
            }
            proof {
                let prev = flat_frags(self.flat_view().subrange(0, k as int), *event, spans@);
                let cur = self.flat_view().subrange(0, k + 1);
                assert(cur.drop_last() =~= self.flat_view().subrange(0, k as int));
                assert(cur.last() == gentry);
                let fs = flat_frags(cur, *event, spans@);
                match gfrag {
                    Option::Some(f) => {
                        assert(fs =~= prev + seq![f]);
                        assert(fs.drop_last() =~= prev);
                        assert(fs.last() == f);
                        assert(out@ =~= out_pre + mc + f);
                        assert(join_cont(fs, wrote) == join_cont(prev, wrote) + mc + f);
                        assert(out@ =~= orig + join_cont(fs, wrote));
                    },
                    Option::None => {
                        assert(fs =~= prev);
                        assert(out@ == out_pre);
                    },
                }
            }
            k += 1;
        }
        proof {
            assert(self.flat_view().subrange(0, self.flat_view().len() as int)
                =~= self.flat_view());
        }
        wrote_any
    }

    /// Renders one event against this schema and the chain of its
    /// enclosing spans, root first, and appends the resulting line to
    /// the writer. Every span's cache must be fresh when the render
    /// reads it.
    pub fn format_event(&self, event: &EventData, spans: &Vec<FieldStore>, writer: &mut Cursor)
        requires
            forall|i: int| 0 <= i < spans@.len() ==> (#[trigger] spans@[i]).synced(),
        ensures
            final(writer)@ == old(writer)@ + render_line(*self, *event, spans@),
    {
        let out = writer.inner_mut();
        let ghost orig = out@;
        out.push(0x7b);
        let wrote = self.write_keyed(event, spans, out, false);
        let ghost kf = keyed_frags(self.keyed_view(), *event, spans@);
        let ghost ff = flat_frags(self.flat_view(), *event, spans@);
        self.write_flattened(event, spans, out, wrote);
        out.push(0x7d);
        out.push(0x0a);
        proof {
            lemma_join_cont_fresh(kf);
            lemma_join_split(kf, ff);
            assert(out@ =~= orig + render_line(*self, *event, spans@));
        }
    }
}

} // verus!
