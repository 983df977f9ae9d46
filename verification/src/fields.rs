//! Per-span field storage: an ordered field map plus a cached, fully
//! rendered JSON object, refreshed only when a recorded value actually
//! changed.

use vstd::prelude::*;

use crate::bytes::{bytes_eq, cmp_bytes, lex_lt};
use crate::value::{
    clone_value, eq_value, map_equiv, push_string, render_members, render_value_into, val_eq,
    Value,
};

verus! {

/// The rendering of a field map as a JSON object.
pub open spec fn render_object(m: Seq<(Vec<u8>, Value)>) -> Seq<u8> {
    seq![0x7bu8] + render_members(m) + seq![0x7du8]
}

/// The reserved key that carries a span's name.
pub open spec fn name_bytes() -> Seq<u8> {
    seq![0x6eu8, 0x61u8, 0x6du8, 0x65u8]
}

/// Whether `k` is the reserved span-name key.
pub fn is_name_key(k: &[u8]) -> (r: bool)
    ensures
        r == (k@ == name_bytes()),
{
    let r = k.len() == 4 && k[0] == 0x6e && k[1] == 0x61 && k[2] == 0x6d && k[3] == 0x65;
    proof {
        if r {
            assert(k@ =~= name_bytes());
        } else {
            if k@.len() == 4 {
                assert(k@ != name_bytes()) by {
                    if k@ == name_bytes() {
                        assert(k@[0] == 0x6e && k@[1] == 0x61 && k@[2] == 0x6d && k@[3] == 0x65);
                    }
                }
            }
        }
    }
    r
}

/// The first value stored under `k`, if any.
pub open spec fn lookup(m: Seq<(Vec<u8>, Value)>, k: Seq<u8>) -> Option<Value>
    decreases m.len(),
{
    if m.len() == 0 {
        Option::None
    } else if m.first().0@ == k {
        Option::Some(m.first().1)
    } else {
        lookup(m.drop_first(), k)
    }
}

/// Insertion into a key-ordered association list: entries with smaller
/// keys stay in front, an entry with the same key is replaced.
pub open spec fn spec_insert(m: Seq<(Vec<u8>, Value)>, kv: (Vec<u8>, Value)) -> Seq<
    (Vec<u8>, Value),
>
    decreases m.len(),
{
    if m.len() == 0 {
        seq![kv]
    } else if lex_lt(m.first().0@, kv.0@) {
        seq![m.first()] + spec_insert(m.drop_first(), kv)
    } else if m.first().0@ == kv.0@ {
        seq![kv] + m.drop_first()
    } else {
        seq![kv] + m
    }
}

/// An ordered mapping from field name to JSON value, lexicographic by the
/// name's UTF-8 bytes.
pub struct FieldMap {
    pub(crate) entries: Vec<(Vec<u8>, Value)>,
}

impl View for FieldMap {
    type V = Seq<(Vec<u8>, Value)>;

    closed spec fn view(&self) -> Seq<(Vec<u8>, Value)> {
        self.entries@
    }
}

impl FieldMap {
    /// Creates an empty field map.
    pub fn new() -> (m: FieldMap)
        ensures
            m@ == Seq::<(Vec<u8>, Value)>::empty(),
    {
        let m = FieldMap { entries: Vec::new() };
        proof {
            assert(m@ =~= Seq::<(Vec<u8>, Value)>::empty());
        }
        m
    }

    /// The number of fields held.
    pub fn len(&self) -> (n: usize)
        ensures
            n == self@.len(),
    {
        self.entries.len()
    }

    /// Whether no field is held.
    pub fn is_empty(&self) -> (r: bool)
        ensures
            r == (self@.len() == 0),
    {
        self.entries.len() == 0
    }

    /// Borrows the entry at position `i`.
    pub fn entry_at(&self, i: usize) -> (e: &(Vec<u8>, Value))
        requires
            i < self@.len(),
        ensures
            *e == self@[i as int],
    {
        &self.entries[i]
    }

    /// Looks a field up by name.
    pub fn get(&self, k: &[u8]) -> (r: Option<&Value>)
        ensures
            match r {
                Option::Some(v) => lookup(self@, k@) == Option::Some(*v),
                Option::None => lookup(self@, k@) is None,
            },
    {
        let n = self.entries.len();
        let mut i: usize = 0;
        proof {
            assert(self@.subrange(0, self@.len() as int) =~= self@);
        }
        while i < n
            invariant
                n == self@.len(),
                i <= n,
                lookup(self@, k@) == lookup(self@.subrange(i as int, n as int), k@),
            decreases n - i,
        {
            let ghost rest = self@.subrange(i as int, n as int);
            proof {
                assert(rest.first() == self@[i as int]);
                assert(rest.drop_first() =~= self@.subrange(i + 1, n as int));
            }
            if bytes_eq(self.entries[i].0.as_slice(), k) {
                return Option::Some(&self.entries[i].1);
            }
            i += 1;
        }
        proof {
            assert(self@.subrange(n as int, n as int) =~= Seq::<(Vec<u8>, Value)>::empty());
        }
        Option::None
    }

    /// Inserts or replaces a field, keeping the key order.
    pub fn insert(&mut self, k: Vec<u8>, v: Value)
        ensures
            final(self)@ == spec_insert(old(self)@, (k, v)),
    {
        let ghost whole = self.entries@;
        let ghost kv = (k, v);
        let n = self.entries.len();
        let mut i: usize = 0;
        proof {
            assert(whole.subrange(0, 0) =~= Seq::<(Vec<u8>, Value)>::empty());
            assert(whole.subrange(0, n as int) =~= whole);
        }
        let mut done = false;
        while i < n && !done
            invariant
                n == whole.len(),
                i <= n,
                self.entries@ == whole,
                spec_insert(whole, kv) == whole.subrange(0, i as int) + spec_insert(
                    whole.subrange(i as int, n as int),
                    kv,
                ),
                kv == (k, v),
                done ==> i < n && !lex_lt(whole[i as int].0@, kv.0@),
            decreases n - i, (if done {
                0int
            } else {
                1int
            }),
        {
            let c = cmp_bytes(self.entries[i].0.as_slice(), k.as_slice());
            if c != -1 {
                done = true;
            } else {
                proof {
                let rest = whole.subrange(i as int, n as int);
                assert(rest.first() == whole[i as int]);
                assert(rest.drop_first() =~= whole.subrange(i + 1, n as int));
                assert(lex_lt(rest.first().0@, kv.0@));
                assert(whole.subrange(0, i as int) + seq![whole[i as int]] =~= whole.subrange(
                    0,
                    i + 1,
                ));
                assert(whole.subrange(0, i as int) + (seq![rest.first()] + spec_insert(
                    rest.drop_first(),
                    kv,
                )) =~= whole.subrange(0, i + 1) + spec_insert(
                    whole.subrange(i + 1, n as int),
                    kv,
                ));
                }
                i += 1;
            }
        }
        let ghost rest = whole.subrange(i as int, n as int);
        if i == n {
            proof {
                assert(rest =~= Seq::<(Vec<u8>, Value)>::empty());
            }
            self.entries.push((k, v));
            proof {
                assert(self.entries@ =~= whole.subrange(0, i as int) + spec_insert(rest, kv));
            }
        } else {
            proof {
                assert(rest.first() == whole[i as int]);
                assert(rest.drop_first() =~= whole.subrange(i + 1, n as int));
            }
            let same = bytes_eq(self.entries[i].0.as_slice(), k.as_slice());
            if same {
                self.entries.remove(i);
                self.entries.insert(i, (k, v));
                proof {
                    assert(spec_insert(rest, kv) == seq![kv] + rest.drop_first());
                    assert(self.entries@ =~= whole.subrange(0, i as int) + spec_insert(rest, kv));
                }
            } else {
                self.entries.insert(i, (k, v));
                proof {
                    assert(!lex_lt(rest.first().0@, kv.0@));
                    assert(spec_insert(rest, kv) == seq![kv] + rest);
                    assert(self.entries@ =~= whole.subrange(0, i as int) + spec_insert(rest, kv));
                }
            }
        }
    }
}

/// Appends the renderings of all members of `entries`, comma separated,
/// to `out`.
pub fn push_members_raw(out: &mut Vec<u8>, entries: &Vec<(Vec<u8>, Value)>)
    ensures
        final(out)@ == old(out)@ + render_members(entries@),
{
    let ghost orig = out@;
    let n = entries.len();
    let mut i: usize = 0;
    proof {
        assert(entries@.subrange(0, 0) =~= Seq::<(Vec<u8>, Value)>::empty());
    }
    while i < n
        invariant
            n == entries@.len(),
            i <= n,
            out@ == orig + render_members(entries@.subrange(0, i as int)),
        decreases n - i,
    {
        if i > 0 {
            out.push(0x2c);
        }
        push_string(out, entries[i].0.as_slice());
        out.push(0x3a);
        render_value_into(out, &entries[i].1);
        proof {
            let cur = entries@.subrange(0, i + 1);
            assert(cur.drop_last() =~= entries@.subrange(0, i as int));
            assert(cur.last() == entries@[i as int]);
            assert(out@ =~= orig + render_members(cur));
        }
        i += 1;
    }
    proof {
        assert(entries@.subrange(0, entries@.len() as int) =~= entries@);
    }
}

/// Appends the renderings of all members of `m`, comma separated, to
/// `out`.
pub fn push_members(out: &mut Vec<u8>, m: &FieldMap)
    ensures
        final(out)@ == old(out)@ + render_members(m@),
{
    push_members_raw(out, &m.entries);
}

/// Appends the rendering of `m` as a JSON object to `out`.
pub fn push_object(out: &mut Vec<u8>, m: &FieldMap)
    ensures
        final(out)@ == old(out)@ + render_object(m@),
{
    out.push(0x7b);
    push_members(out, m);
    out.push(0x7d);
    proof {
        assert(out@ =~= old(out)@ + render_object(m@));
    }
}

/// Whether recording `(k, v)` on the map `m` would change it: the
/// reserved name key never does, and neither does re-recording a value
/// equal to the one already held.
pub open spec fn record_changes(m: Seq<(Vec<u8>, Value)>, k: Seq<u8>, v: Value) -> bool {
    &&& k != name_bytes()
    &&& match lookup(m, k) {
        Option::Some(cur) => !val_eq(cur, v),
        Option::None => true,
    }
}

/// A span's field store: the current field values plus a cached rendering
/// of the whole map as a JSON object.
pub struct FieldStore {
    fields: FieldMap,
    serialized: Vec<u8>,
    version: u64,
    dirty: bool,
}

impl FieldStore {
    /// The current field map.
    pub closed spec fn fields_view(self) -> Seq<(Vec<u8>, Value)> {
        self.fields@
    }

    /// The cached rendering.
    pub closed spec fn cache_view(self) -> Seq<u8> {
        self.serialized@
    }

    /// Whether a recorded change has not yet been serialized.
    pub closed spec fn pending(self) -> bool {
        self.dirty
    }

    /// The cache is consistent whenever no change is pending.
    pub open spec fn wf(self) -> bool {
        !self.pending() ==> self.cache_view() == render_object(self.fields_view())
    }

    /// No change is pending and the cache renders the current fields.
    pub open spec fn synced(self) -> bool {
        &&& !self.pending()
        &&& self.cache_view() == render_object(self.fields_view())
    }

    /// Creates an empty store whose cache holds the empty object.
    pub fn new() -> (s: FieldStore)
        ensures
            s.fields_view() == Seq::<(Vec<u8>, Value)>::empty(),
            s.synced(),
            s.wf(),
    {
        let mut serialized: Vec<u8> = Vec::new();
        serialized.push(0x7b);
        serialized.push(0x7d);
        let s = FieldStore { fields: FieldMap::new(), serialized, version: 0, dirty: false };
        proof {
            assert(s.serialized@ =~= render_object(s.fields@));
        }
        s
    }

    /// Borrows the field map.
    pub fn fields(&self) -> (m: &FieldMap)
        ensures
            m@ == self.fields_view(),
    {
        &self.fields
    }

    /// Borrows the cached rendering.
    pub fn serialized_bytes(&self) -> (b: &Vec<u8>)
        ensures
            b@ == self.cache_view(),
    {
        &self.serialized
    }

    /// Records one field value. The reserved name key is ignored, and a
    /// value equal to the one already held leaves the store untouched;
    /// otherwise the field is written and the cache marked stale.
    pub fn record_field(&mut self, key: Vec<u8>, value: Value)
        ensures
            final(self).cache_view() == old(self).cache_view(),
            final(self).fields_view() == if record_changes(
                old(self).fields_view(),
                key@,
                value,
            ) {
                spec_insert(old(self).fields_view(), (key, value))
            } else {
                old(self).fields_view()
            },
            !record_changes(old(self).fields_view(), key@, value) ==> *final(self) == *old(self),
            old(self).wf() ==> final(self).wf(),
    {
        if is_name_key(key.as_slice()) {
            return;
        }
        let same = match self.fields.get(key.as_slice()) {
            Option::Some(cur) => eq_value(cur, &value),
            Option::None => false,
        };
        if same {
            return;
        }
        self.fields.insert(key, value);
        self.dirty = true;
        if self.version < u64::MAX {
            self.version = self.version + 1;
        }
    }

    /// Re-renders the cache if a change is pending. A clean store is left
    /// untouched.
    pub fn refresh(&mut self)
        requires
            old(self).wf(),
        ensures
            final(self).fields_view() == old(self).fields_view(),
            final(self).synced(),
            !old(self).pending() ==> *final(self) == *old(self),
    {
        if !self.dirty {
            return;
        }
        let mut s: Vec<u8> = Vec::new();
        push_object(&mut s, &self.fields);
        self.serialized = s;
        self.dirty = false;
    }

    /// Builds a synchronized store from a finished field map.
    pub fn from_map(fields: FieldMap) -> (s: FieldStore)
        ensures
            s.fields_view() == fields@,
            s.synced(),
    {
        let mut serialized: Vec<u8> = Vec::new();
        push_object(&mut serialized, &fields);
        FieldStore { fields, serialized, version: 0, dirty: false }
    }

    /// Hands the field map back, dropping the cache.
    pub fn into_fields(self) -> (m: FieldMap)
        ensures
            m@ == self.fields_view(),
    {
        self.fields
    }

    /// A deep copy of the store: same cache bytes, fields equal by
    /// content, same synchronization state.
    pub fn clone_store(&self) -> (r: FieldStore)
        ensures
            r.cache_view() == self.cache_view(),
            map_equiv(r.fields_view(), self.fields_view()),
            r.pending() == self.pending(),
            self.synced() ==> r.synced(),
            self.wf() ==> r.wf(),
    {
        let src = &self.fields.entries;
        let n = src.len();
        let mut entries: Vec<(Vec<u8>, Value)> = Vec::new();
        let mut i: usize = 0;
        while i < n
            invariant
                n == src@.len(),
                i <= n,
                entries@.len() == i,
                forall|j: int|
                    0 <= j < i ==> (#[trigger] entries@[j]).0@ == src@[j].0@ && val_eq(
                        entries@[j].1,
                        src@[j].1,
                    ),
            decreases n - i,
        {
            let key = vstd::slice::slice_to_vec(src[i].0.as_slice());
            let value = clone_value(&src[i].1);
            entries.push((key, value));
            i += 1;
        }
        let fields = FieldMap { entries };
        let serialized = vstd::slice::slice_to_vec(self.serialized.as_slice());
        let r = FieldStore { fields, serialized, version: self.version, dirty: self.dirty };
        proof {
            if !self.dirty && self.serialized@ == render_object(self.fields@) {
                crate::value::lemma_members_equiv_render(r.fields@, self.fields@);
            }
        }
        r
    }
}

/// All fields of `fs` written over `m` in order.
pub open spec fn insert_all(m: Seq<(Vec<u8>, Value)>, fs: Seq<(Vec<u8>, Value)>) -> Seq<
    (Vec<u8>, Value),
>
    decreases fs.len(),
{
    if fs.len() == 0 {
        m
    } else {
        spec_insert(insert_all(m, fs.drop_last()), fs.last())
    }
}

/// The field maps of a span chain merged root first, so that a span
/// nearer the leaf overrides a field also set nearer the root.
pub open spec fn merged_fields(spans: Seq<FieldStore>) -> Seq<(Vec<u8>, Value)>
    decreases spans.len(),
{
    if spans.len() == 0 {
        Seq::empty()
    } else {
        insert_all(merged_fields(spans.drop_last()), spans.last().fields_view())
    }
}

/// Ordered insertion respects content equivalence of maps and entries.
pub proof fn lemma_insert_equiv(
    a: Seq<(Vec<u8>, Value)>,
    b: Seq<(Vec<u8>, Value)>,
    kva: (Vec<u8>, Value),
    kvb: (Vec<u8>, Value),
)
    requires
        map_equiv(a, b),
        kva.0@ == kvb.0@,
        val_eq(kva.1, kvb.1),
    ensures
        map_equiv(spec_insert(a, kva), spec_insert(b, kvb)),
    decreases a.len(),
{
    if a.len() == 0 {
    } else {
        assert(a[0].0@ == b[0].0@ && val_eq(a[0].1, b[0].1));
        assert(a.first() == a[0] && b.first() == b[0]);
        if lex_lt(a.first().0@, kva.0@) {
            assert(map_equiv(a.drop_first(), b.drop_first())) by {
                assert(forall|i: int|
                    0 <= i < a.drop_first().len() ==> (#[trigger] a.drop_first()[i]).0@
                        == b.drop_first()[i].0@ && val_eq(a.drop_first()[i].1, b.drop_first()[i].1));
            }
            lemma_insert_equiv(a.drop_first(), b.drop_first(), kva, kvb);
            assert(spec_insert(a, kva) == seq![a.first()] + spec_insert(a.drop_first(), kva));
            assert(spec_insert(b, kvb) == seq![b.first()] + spec_insert(b.drop_first(), kvb));
            assert(map_equiv(spec_insert(a, kva), spec_insert(b, kvb))) by {
                let ra = seq![a.first()] + spec_insert(a.drop_first(), kva);
                let rb = seq![b.first()] + spec_insert(b.drop_first(), kvb);
                assert(forall|i: int|
                    1 <= i < ra.len() ==> #[trigger] ra[i] == spec_insert(a.drop_first(), kva)[i
                        - 1] && rb[i] == spec_insert(b.drop_first(), kvb)[i - 1]);
            }
        } else if a.first().0@ == kva.0@ {
            assert(spec_insert(a, kva) == seq![kva] + a.drop_first());
            assert(spec_insert(b, kvb) == seq![kvb] + b.drop_first());
            assert(map_equiv(spec_insert(a, kva), spec_insert(b, kvb))) by {
                let ra = seq![kva] + a.drop_first();
                let rb = seq![kvb] + b.drop_first();
                assert(forall|i: int|
                    1 <= i < ra.len() ==> #[trigger] ra[i] == a[i] && rb[i] == b[i]);
            }
        } else {
            assert(spec_insert(a, kva) == seq![kva] + a);
            assert(spec_insert(b, kvb) == seq![kvb] + b);
            assert(map_equiv(spec_insert(a, kva), spec_insert(b, kvb))) by {
                let ra = seq![kva] + a;
                let rb = seq![kvb] + b;
                assert(forall|i: int|
                    1 <= i < ra.len() ==> #[trigger] ra[i] == a[i - 1] && rb[i] == b[i - 1]);
            }
        }
    }
}

/// Merges the field maps of a span chain, root first.
pub fn merge_spans(spans: &Vec<FieldStore>) -> (m: FieldMap)
    ensures
        map_equiv(m@, merged_fields(spans@)),
{
    let mut acc = FieldMap::new();
    let n = spans.len();
    let mut k: usize = 0;
    proof {
        assert(spans@.subrange(0, 0) =~= Seq::<FieldStore>::empty());
    }
    while k < n
        invariant
            n == spans@.len(),
            k <= n,
            map_equiv(acc@, merged_fields(spans@.subrange(0, k as int))),
        decreases n - k,
    {
        let fm = spans[k].fields();
        let flen = fm.len();
        let mut j: usize = 0;
        proof {
            assert(fm@.subrange(0, 0) =~= Seq::<(Vec<u8>, Value)>::empty());
            assert(insert_all(merged_fields(spans@.subrange(0, k as int)), fm@.subrange(0, 0))
                == merged_fields(spans@.subrange(0, k as int)));
        }
        while j < flen
            invariant
                n == spans@.len(),
                k < n,
                flen == fm@.len(),
                j <= flen,
                fm@ == spans@[k as int].fields_view(),
                map_equiv(
                    acc@,
                    insert_all(
                        merged_fields(spans@.subrange(0, k as int)),
                        fm@.subrange(0, j as int),
                    ),
                ),
            decreases flen - j,
        {
            let e = fm.entry_at(j);
            let key = vstd::slice::slice_to_vec(e.0.as_slice());
            let val = clone_value(&e.1);
            proof {
                let pre = fm@.subrange(0, j as int);
                let cur = fm@.subrange(0, j + 1);
                assert(cur.drop_last() =~= pre);
                assert(cur.last() == fm@[j as int]);
                lemma_insert_equiv(
                    acc@,
                    insert_all(merged_fields(spans@.subrange(0, k as int)), pre),
                    (key, val),
                    fm@[j as int],
                );
            }
            acc.insert(key, val);
            j += 1;
        }
        proof {
            let curk = spans@.subrange(0, k + 1);
            assert(curk.drop_last() =~= spans@.subrange(0, k as int));
            assert(curk.last() == spans@[k as int]);
            assert(fm@.subrange(0, fm@.len() as int) =~= fm@);
        }
        k += 1;
    }
    proof {
        assert(spans@.subrange(0, spans@.len() as int) =~= spans@);
    }
    acc
}

} // verus!
