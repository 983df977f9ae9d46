//! The JSON value model and its rendering.
//!
//! Strings are carried as UTF-8 bytes. A `NumTok` holds a pre-rendered
//! numeric token (the way a caller hands over a floating-point rendering);
//! a token that does not match the JSON number grammar renders as `null`
//! so that the output stays grammatical whatever the caller supplied.

use vstd::prelude::*;

use crate::escape::{escape_bytes, escape_into};
use crate::num::{
    check_number_token, is_number_token, push_i64, push_u64, render_i64, render_u64,
};

verus! {

/// A JSON value.
pub enum Value {
    Null,
    Bool(bool),
    Int(i64),
    UInt(u64),
    NumTok(Vec<u8>),
    Str(Vec<u8>),
    Arr(Vec<Value>),
    Obj(Vec<(Vec<u8>, Value)>),
}

/// The rendering of a JSON string literal: quoted, escaped body.
pub open spec fn render_string(s: Seq<u8>) -> Seq<u8> {
    seq![0x22u8] + escape_bytes(s) + seq![0x22u8]
}

/// The rendering of a JSON value.
pub open spec fn render_value(v: Value) -> Seq<u8>
    decreases v,
{
    match v {
        Value::Null => seq![0x6eu8, 0x75u8, 0x6cu8, 0x6cu8],
        Value::Bool(b) => if b {
            seq![0x74u8, 0x72u8, 0x75u8, 0x65u8]
        } else {
            seq![0x66u8, 0x61u8, 0x6cu8, 0x73u8, 0x65u8]
        },
        Value::Int(i) => render_i64(i),
        Value::UInt(n) => render_u64(n),
        Value::NumTok(t) => if is_number_token(t@) {
            t@
        } else {
            seq![0x6eu8, 0x75u8, 0x6cu8, 0x6cu8]
        },
        Value::Str(s) => render_string(s@),
        Value::Arr(a) => seq![0x5bu8] + render_elements(a@) + seq![0x5du8],
        Value::Obj(m) => seq![0x7bu8] + render_members(m@) + seq![0x7du8],
    }
}

/// The comma-separated renderings of array elements.
pub open spec fn render_elements(a: Seq<Value>) -> Seq<u8>
    decreases a,
{
    if a.len() == 0 {
        Seq::empty()
    } else if a.len() == 1 {
        render_value(a.last())
    } else {
        render_elements(a.drop_last()) + seq![0x2cu8] + render_value(a.last())
    }
}

/// The comma-separated renderings of object members.
pub open spec fn render_members(m: Seq<(Vec<u8>, Value)>) -> Seq<u8>
    decreases m,
{
    if m.len() == 0 {
        Seq::empty()
    } else if m.len() == 1 {
        render_string(m.last().0@) + seq![0x3au8] + render_value(m.last().1)
    } else {
        render_members(m.drop_last()) + seq![0x2cu8] + render_string(m.last().0@) + seq![0x3au8]
            + render_value(m.last().1)
    }
}

/// Structural equality of two values, comparing carried bytes by content.
pub open spec fn val_eq(a: Value, b: Value) -> bool
    decreases a,
{
    match (a, b) {
        (Value::Null, Value::Null) => true,
        (Value::Bool(x), Value::Bool(y)) => x == y,
        (Value::Int(x), Value::Int(y)) => x == y,
        (Value::UInt(x), Value::UInt(y)) => x == y,
        (Value::NumTok(x), Value::NumTok(y)) => x@ == y@,
        (Value::Str(x), Value::Str(y)) => x@ == y@,
        (Value::Arr(x), Value::Arr(y)) => x@.len() == y@.len() && (forall|i: int|
            0 <= i < x@.len() ==> val_eq(#[trigger] x@[i], y@[i])),
        (Value::Obj(x), Value::Obj(y)) => x@.len() == y@.len() && (forall|i: int|
            0 <= i < x@.len() ==> (#[trigger] x@[i]).0@ == y@[i].0@ && val_eq(x@[i].1, y@[i].1)),
        _ => false,
    }
}

/// Comma-joined concatenation of fragments.
pub open spec fn join_comma(fs: Seq<Seq<u8>>) -> Seq<u8>
    decreases fs.len(),
{
    if fs.len() == 0 {
        Seq::empty()
    } else if fs.len() == 1 {
        fs.last()
    } else {
        join_comma(fs.drop_last()) + seq![0x2cu8] + fs.last()
    }
}

/// Pointwise equivalence of two member lists: equal keys and equal
/// values, compared by content.
pub open spec fn map_equiv(a: Seq<(Vec<u8>, Value)>, b: Seq<(Vec<u8>, Value)>) -> bool {
    &&& a.len() == b.len()
    &&& forall|i: int|
        0 <= i < a.len() ==> (#[trigger] a[i]).0@ == b[i].0@ && val_eq(a[i].1, b[i].1)
}

/// Values equal by content render to the same bytes.
pub proof fn lemma_val_eq_render(a: Value, b: Value)
    requires
        val_eq(a, b),
    ensures
        render_value(a) == render_value(b),
    decreases a,
{
    match (a, b) {
        (Value::Arr(x), Value::Arr(y)) => {
            lemma_elements_equiv_render(x@, y@);
        },
        (Value::Obj(x), Value::Obj(y)) => {
            lemma_members_equiv_render(x@, y@);
        },
        _ => {},
    }
}

/// Element lists equal by content render to the same bytes.
pub proof fn lemma_elements_equiv_render(x: Seq<Value>, y: Seq<Value>)
    requires
        x.len() == y.len(),
        forall|i: int| 0 <= i < x.len() ==> val_eq(#[trigger] x[i], y[i]),
    ensures
        render_elements(x) == render_elements(y),
    decreases x,
{
    if x.len() > 0 {
        assert(val_eq(x[x.len() - 1], y[y.len() - 1]));
        lemma_val_eq_render(x.last(), y.last());
        if x.len() > 1 {
            assert(forall|i: int|
                0 <= i < x.drop_last().len() ==> val_eq(#[trigger] x.drop_last()[i], y.drop_last()[i]));
            lemma_elements_equiv_render(x.drop_last(), y.drop_last());
        }
    }
}

/// Member lists equal by content render to the same bytes.
pub proof fn lemma_members_equiv_render(x: Seq<(Vec<u8>, Value)>, y: Seq<(Vec<u8>, Value)>)
    requires
        map_equiv(x, y),
    ensures
        render_members(x) == render_members(y),
    decreases x,
{
    if x.len() > 0 {
        assert(x[x.len() - 1].0@ == y[y.len() - 1].0@ && val_eq(x[x.len() - 1].1, y[y.len() - 1].1));
        lemma_val_eq_render(x.last().1, y.last().1);
        if x.len() > 1 {
            assert(forall|i: int|
                0 <= i < x.drop_last().len() ==> (#[trigger] x.drop_last()[i]).0@
                    == y.drop_last()[i].0@ && val_eq(x.drop_last()[i].1, y.drop_last()[i].1));
            lemma_members_equiv_render(x.drop_last(), y.drop_last());
        }
    }
}

/// Deep copy of a value; the copy equals the original by content.
pub fn clone_value(v: &Value) -> (r: Value)
    ensures
        val_eq(r, *v),
    decreases v,
{
    match v {
        Value::Null => Value::Null,
        Value::Bool(b) => Value::Bool(*b),
        Value::Int(i) => Value::Int(*i),
        Value::UInt(n) => Value::UInt(*n),
        Value::NumTok(t) => Value::NumTok(vstd::slice::slice_to_vec(t.as_slice())),
        Value::Str(s) => Value::Str(vstd::slice::slice_to_vec(s.as_slice())),
        Value::Arr(a) => {
            let n = a.len();
            let mut out: Vec<Value> = Vec::new();
            let mut i: usize = 0;
            while i < n
                invariant
                    n == a@.len(),
                    i <= n,
                    out@.len() == i,
                    forall|j: int| 0 <= j < i ==> val_eq(#[trigger] out@[j], a@[j]),
                    v is Arr,
                    v->Arr_0 == a,
                decreases n - i,
            {
                proof {
                    assert(decreases_to!(v => a@[i as int])) by {
                        assert(decreases_to!(a@ => a@[i as int]));
                    }
                }
                let c = clone_value(&a[i]);
                out.push(c);
                i += 1;
            }
            Value::Arr(out)
        },
        Value::Obj(m) => {
            let n = m.len();
            let mut out: Vec<(Vec<u8>, Value)> = Vec::new();
            let mut i: usize = 0;
            while i < n
                invariant
                    n == m@.len(),
                    i <= n,
                    out@.len() == i,
                    forall|j: int|
                        0 <= j < i ==> (#[trigger] out@[j]).0@ == m@[j].0@ && val_eq(
                            out@[j].1,
                            m@[j].1,
                        ),
                    v is Obj,
                    v->Obj_0 == m,
                decreases n - i,
            {
                let k = vstd::slice::slice_to_vec(m[i].0.as_slice());
                proof {
                    assert(decreases_to!(v => m@[i as int].1)) by {
                        assert(decreases_to!(m@ => m@[i as int]));
                    }
                }
                let c = clone_value(&m[i].1);
                out.push((k, c));
                i += 1;
            }
            Value::Obj(out)
        },
    }
}

/// Appends the quoted, escaped form of `s` to `out`.
pub fn push_string(out: &mut Vec<u8>, s: &[u8])
    ensures
        final(out)@ == old(out)@ + render_string(s@),
{
    out.push(0x22);
    escape_into(out, s);
    out.push(0x22);
    proof {
        assert(out@ =~= old(out)@ + render_string(s@));
    }
}

/// Appends the rendering of `v` to `out`.
pub fn render_value_into(out: &mut Vec<u8>, v: &Value)
    ensures
        final(out)@ == old(out)@ + render_value(*v),
    decreases v,
{
    let ghost orig = out@;
    match v {
        Value::Null => {
            out.push(0x6e);
            out.push(0x75);
            out.push(0x6c);
            out.push(0x6c);
            proof {
                assert(out@ =~= orig + render_value(*v));
            }
        },
        Value::Bool(b) => {
            if *b {
                out.push(0x74);
                out.push(0x72);
                out.push(0x75);
                out.push(0x65);
            } else {
                out.push(0x66);
                out.push(0x61);
                out.push(0x6c);
                out.push(0x73);
                out.push(0x65);
            }
            proof {
                assert(out@ =~= orig + render_value(*v));
            }
        },
        Value::Int(i) => {
            push_i64(out, *i);
        },
        Value::UInt(n) => {
            push_u64(out, *n);
        },
        Value::NumTok(t) => {
            if check_number_token(t.as_slice()) {
                out.extend_from_slice(t.as_slice());
            } else {
                out.push(0x6e);
                out.push(0x75);
                out.push(0x6c);
                out.push(0x6c);
                proof {
                    assert(out@ =~= orig + render_value(*v));
                }
            }
        },
        Value::Str(s) => {
            push_string(out, s.as_slice());
        },
        Value::Arr(a) => {
            out.push(0x5b);
            let n = a.len();
            let mut i: usize = 0;
            proof {
                assert(a@.subrange(0, 0) =~= Seq::<Value>::empty());
            }
            while i < n
                invariant
                    n == a@.len(),
                    i <= n,
                    out@ == orig + seq![0x5bu8] + render_elements(a@.subrange(0, i as int)),
                    v is Arr,
                    v->Arr_0 == a,
                decreases n - i,
            {
                if i > 0 {
                    out.push(0x2c);
                }
                proof {
                    assert(decreases_to!(v => a@[i as int])) by {
                        assert(decreases_to!(a@ => a@[i as int]));
                    }
                }
                render_value_into(out, &a[i]);
                proof {
                    let cur = a@.subrange(0, i + 1);
                    assert(cur.drop_last() =~= a@.subrange(0, i as int));
                    assert(cur.last() == a@[i as int]);
                    assert(out@ =~= orig + seq![0x5bu8] + render_elements(cur));
                }
                i += 1;
            }
            out.push(0x5d);
            proof {
                assert(a@.subrange(0, a@.len() as int) =~= a@);
                assert(out@ =~= orig + render_value(*v));
            }
        },
        Value::Obj(m) => {
            out.push(0x7b);
            let n = m.len();
            let mut i: usize = 0;
            proof {
                assert(m@.subrange(0, 0) =~= Seq::<(Vec<u8>, Value)>::empty());
            }
            while i < n
                invariant
                    n == m@.len(),
                    i <= n,
                    out@ == orig + seq![0x7bu8] + render_members(m@.subrange(0, i as int)),
                    v is Obj,
                    v->Obj_0 == m,
                decreases n - i,
            {
                if i > 0 {
                    out.push(0x2c);
                }
                push_string(out, m[i].0.as_slice());
                out.push(0x3a);
                proof {
                    assert(decreases_to!(v => m@[i as int].1)) by {
                        assert(decreases_to!(m@ => m@[i as int]));
                    }
                }
                render_value_into(out, &m[i].1);
                proof {
                    let cur = m@.subrange(0, i + 1);
                    assert(cur.drop_last() =~= m@.subrange(0, i as int));
                    assert(cur.last() == m@[i as int]);
                    assert(out@ =~= orig + seq![0x7bu8] + render_members(cur));
                }
                i += 1;
            }
            out.push(0x7d);
            proof {
                assert(m@.subrange(0, m@.len() as int) =~= m@);
                assert(out@ =~= orig + render_value(*v));
            }
        },
    }
}

/// Decides structural equality of two values.
pub fn eq_value(a: &Value, b: &Value) -> (r: bool)
    ensures
        r == val_eq(*a, *b),
    decreases a,
{
    match (a, b) {
        (Value::Null, Value::Null) => true,
        (Value::Bool(x), Value::Bool(y)) => x == y,
        (Value::Int(x), Value::Int(y)) => x == y,
        (Value::UInt(x), Value::UInt(y)) => x == y,
        (Value::NumTok(x), Value::NumTok(y)) => crate::bytes::bytes_eq(
            x.as_slice(),
            y.as_slice(),
        ),
        (Value::Str(x), Value::Str(y)) => crate::bytes::bytes_eq(x.as_slice(), y.as_slice()),
        (Value::Arr(x), Value::Arr(y)) => {
            if x.len() != y.len() {
                return false;
            }
            let n = x.len();
            let mut i: usize = 0;
            while i < n
                invariant
                    n == x@.len(),
                    n == y@.len(),
                    i <= n,
                    forall|j: int| 0 <= j < i ==> val_eq(#[trigger] x@[j], y@[j]),
                    a is Arr,
                    a->Arr_0 == x,
                    b is Arr,
                    b->Arr_0 == y,
                decreases n - i,
            {
                proof {
                    assert(decreases_to!(a => x@[i as int])) by {
                        assert(decreases_to!(x@ => x@[i as int]));
                    }
                }
                if !eq_value(&x[i], &y[i]) {
                    return false;
                }
                i += 1;
            }
            true
        },
        (Value::Obj(x), Value::Obj(y)) => {
            if x.len() != y.len() {
                return false;
            }
            let n = x.len();
            let mut i: usize = 0;
            while i < n
                invariant
                    n == x@.len(),
                    n == y@.len(),
                    i <= n,
                    forall|j: int|
                        0 <= j < i ==> (#[trigger] x@[j]).0@ == y@[j].0@ && val_eq(
                            x@[j].1,
                            y@[j].1,
                        ),
                    a is Obj,
                    a->Obj_0 == x,
                    b is Obj,
                    b->Obj_0 == y,
                decreases n - i,
            {
                if !crate::bytes::bytes_eq(x[i].0.as_slice(), y[i].0.as_slice()) {
                    return false;
                }
                proof {
                    assert(decreases_to!(a => x@[i as int].1)) by {
                        assert(decreases_to!(x@ => x@[i as int]));
                    }
                }
                if !eq_value(&x[i].1, &y[i].1) {
                    return false;
                }
                i += 1;
            }
            true
        },
        _ => false,
    }
}

} // verus!
