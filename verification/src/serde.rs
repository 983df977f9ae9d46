//! An incremental writer for one JSON object, member by member.
//!
//! Each recorded entry appends `"key":value`, with a comma exactly
//! between members, so the closed buffer is always one well-formed
//! object body.

use vstd::prelude::*;
use vstd::string::{StrSliceExecFns, StringSliceAdditionalSpecFns};

use crate::num::{push_i64, push_u64, render_i64, render_u64};
use crate::value::{
    join_comma, push_string, render_string, render_value, render_value_into, Value,
};

verus! {

/// The rendering of a boolean token.
pub open spec fn render_bool(b: bool) -> Seq<u8> {
    if b {
        seq![0x74u8, 0x72u8, 0x75u8, 0x65u8]
    } else {
        seq![0x66u8, 0x61u8, 0x6cu8, 0x73u8, 0x65u8]
    }
}

/// Serializes one map of typed entries into a JSON object.
pub struct SerdeMapVisitor {
    buf: Vec<u8>,
    wrote_any: bool,
    frags: Ghost<Seq<Seq<u8>>>,
}

impl SerdeMapVisitor {
    /// The fragments written so far, each one rendered member.
    pub closed spec fn frags_view(self) -> Seq<Seq<u8>> {
        self.frags@
    }

    /// The buffer holds exactly the open brace and the comma-joined
    /// fragments.
    pub closed spec fn wf(self) -> bool {
        &&& self.buf@ == seq![0x7bu8] + join_comma(self.frags@)
        &&& self.wrote_any == (self.frags@.len() > 0)
    }

    /// Opens the object.
    pub fn new() -> (v: SerdeMapVisitor)
        ensures
            v.wf(),
            v.frags_view() == Seq::<Seq<u8>>::empty(),
    {
        let mut buf: Vec<u8> = Vec::new();
        buf.push(0x7b);
        let v = SerdeMapVisitor { buf, wrote_any: false, frags: Ghost(Seq::empty()) };
        proof {
            assert(v.buf@ =~= seq![0x7bu8] + join_comma(v.frags@));
        }
        v
    }

    /// Writes the member prefix and updates the fragment record.
    fn push_frag_prefix(&mut self, key: &str)
        requires
            old(self).wf(),
        ensures
            final(self).wrote_any_now(),
            final(self).buf_now() == old(self).buf_now() + (if old(self).frags_view().len() > 0 {
                seq![0x2cu8]
            } else {
                Seq::<u8>::empty()
            }) + render_string(key.spec_bytes()) + seq![0x3au8],
            final(self).frags_view() == old(self).frags_view(),
    {
        if self.wrote_any {
            self.buf.push(0x2c);
        }
        push_string(&mut self.buf, key.as_bytes_vec().as_slice());
        self.buf.push(0x3a);
        self.wrote_any = true;
        proof {
            assert(self.buf@ =~= old(self).buf@ + (if old(self).frags@.len() > 0 {
                seq![0x2cu8]
            } else {
                Seq::<u8>::empty()
            }) + render_string(key.spec_bytes()) + seq![0x3au8]);
        }
    }

    /// The buffer's bytes, for internal bookkeeping.
    pub closed spec fn buf_now(self) -> Seq<u8> {
        self.buf@
    }

    /// Whether a member has been written, for internal bookkeeping.
    pub closed spec fn wrote_any_now(self) -> bool {
        self.wrote_any
    }

    /// Records a string entry.
    pub fn record_str(&mut self, key: &str, value: &str)
        requires
            old(self).wf(),
        ensures
            final(self).wf(),
            final(self).frags_view() == old(self).frags_view() + seq![
                render_member_str(key.spec_bytes(), value.spec_bytes()),
            ],
    {
        self.push_frag_prefix(key);
        push_string(&mut self.buf, value.as_bytes_vec().as_slice());
        proof {
            self.frags@ = old(self).frags@ + seq![
                render_member_str(key.spec_bytes(), value.spec_bytes()),
            ];
        }
        proof {
            lemma_join_snoc(old(self).frags@, self.frags@.last());
            assert(self.buf@ =~= seq![0x7bu8] + join_comma(self.frags@));
        }
    }

    /// Records a boolean entry.
    pub fn record_bool(&mut self, key: &str, value: bool)
        requires
            old(self).wf(),
        ensures
            final(self).wf(),
            final(self).frags_view() == old(self).frags_view() + seq![
                render_string(key.spec_bytes()) + seq![0x3au8] + render_bool(value),
            ],
    {
        self.push_frag_prefix(key);
        if value {
            self.buf.push(0x74);
            self.buf.push(0x72);
            self.buf.push(0x75);
            self.buf.push(0x65);
        } else {
            self.buf.push(0x66);
            self.buf.push(0x61);
            self.buf.push(0x6c);
            self.buf.push(0x73);
            self.buf.push(0x65);
        }
        proof {
            self.frags@ = old(self).frags@ + seq![
                render_string(key.spec_bytes()) + seq![0x3au8] + render_bool(value),
            ];
        }
        proof {
            lemma_join_snoc(old(self).frags@, self.frags@.last());
            assert(self.buf@ =~= seq![0x7bu8] + join_comma(self.frags@));
        }
    }

    /// Records a signed integer entry.
    pub fn record_i64(&mut self, key: &str, value: i64)
        requires
            old(self).wf(),
        ensures
            final(self).wf(),
            final(self).frags_view() == old(self).frags_view() + seq![
                render_string(key.spec_bytes()) + seq![0x3au8] + render_i64(value),
            ],
    {
        self.push_frag_prefix(key);
        push_i64(&mut self.buf, value);
        proof {
            self.frags@ = old(self).frags@ + seq![
                render_string(key.spec_bytes()) + seq![0x3au8] + render_i64(value),
            ];
        }
        proof {
            lemma_join_snoc(old(self).frags@, self.frags@.last());
            assert(self.buf@ =~= seq![0x7bu8] + join_comma(self.frags@));
        }
    }

    /// Records an unsigned integer entry.
    pub fn record_u64(&mut self, key: &str, value: u64)
        requires
            old(self).wf(),
        ensures
            final(self).wf(),
            final(self).frags_view() == old(self).frags_view() + seq![
                render_string(key.spec_bytes()) + seq![0x3au8] + render_u64(value),
            ],
    {
        self.push_frag_prefix(key);
        push_u64(&mut self.buf, value);
        proof {
            self.frags@ = old(self).frags@ + seq![
                render_string(key.spec_bytes()) + seq![0x3au8] + render_u64(value),
            ];
        }
        proof {
            lemma_join_snoc(old(self).frags@, self.frags@.last());
            assert(self.buf@ =~= seq![0x7bu8] + join_comma(self.frags@));
        }
    }

    /// Records an arbitrary value entry.
    pub fn record_value(&mut self, key: &str, value: &Value)
        requires
            old(self).wf(),
        ensures
            final(self).wf(),
            final(self).frags_view() == old(self).frags_view() + seq![
                render_string(key.spec_bytes()) + seq![0x3au8] + render_value(*value),
            ],
    {
        self.push_frag_prefix(key);
        render_value_into(&mut self.buf, value);
        proof {
            self.frags@ = old(self).frags@ + seq![
                render_string(key.spec_bytes()) + seq![0x3au8] + render_value(*value),
            ];
        }
        proof {
            lemma_join_snoc(old(self).frags@, self.frags@.last());
            assert(self.buf@ =~= seq![0x7bu8] + join_comma(self.frags@));
        }
    }

    /// Closes the object and hands the bytes back.
    pub fn finish(self) -> (r: Vec<u8>)
        requires
            self.wf(),
        ensures
            r@ == seq![0x7bu8] + join_comma(self.frags_view()) + seq![0x7du8],
    {
        let mut buf = self.buf;
        buf.push(0x7d);
        proof {
            assert(buf@ =~= seq![0x7bu8] + join_comma(self.frags@) + seq![0x7du8]);
        }
        buf
    }
}

/// The rendering of one string-valued member.
pub open spec fn render_member_str(k: Seq<u8>, s: Seq<u8>) -> Seq<u8> {
    render_string(k) + seq![0x3au8] + render_string(s)
}

/// Joining after appending one fragment adds a comma exactly when a
/// fragment was already present.
pub proof fn lemma_join_snoc(fs: Seq<Seq<u8>>, f: Seq<u8>)
    ensures
        join_comma(fs + seq![f]) == join_comma(fs) + (if fs.len() > 0 {
            seq![0x2cu8]
        } else {
            Seq::<u8>::empty()
        }) + f,
{
    let all = fs + seq![f];
    assert(all.drop_last() =~= fs);
    assert(all.last() == f);
    if fs.len() == 0 {
        assert(join_comma(all) =~= Seq::<u8>::empty() + Seq::<u8>::empty() + f);
    }
}

} // verus!
