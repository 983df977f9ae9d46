//! The numeric level scale used by bunyan-style output.

use vstd::prelude::*;
use vstd::string::StringSliceAdditionalSpecFns;

use crate::bytes::bytes_eq;

verus! {

/// The text of the error level.
pub open spec fn error_text() -> Seq<u8> {
    seq![0x45u8, 0x52u8, 0x52u8, 0x4fu8, 0x52u8]
}

/// The text of the warning level.
pub open spec fn warn_text() -> Seq<u8> {
    seq![0x57u8, 0x41u8, 0x52u8, 0x4eu8]
}

/// The text of the info level.
pub open spec fn info_text() -> Seq<u8> {
    seq![0x49u8, 0x4eu8, 0x46u8, 0x4fu8]
}

/// The text of the debug level.
pub open spec fn debug_text() -> Seq<u8> {
    seq![0x44u8, 0x45u8, 0x42u8, 0x55u8, 0x47u8]
}

/// The text of the trace level.
pub open spec fn trace_text() -> Seq<u8> {
    seq![0x54u8, 0x52u8, 0x41u8, 0x43u8, 0x45u8]
}

/// The numeric level for a level's text: 50 down to 10 from error to
/// trace, 0 for anything unrecognized.
pub open spec fn bunyan_level_of(s: Seq<u8>) -> u8 {
    if s == error_text() {
        50
    } else if s == warn_text() {
        40
    } else if s == info_text() {
        30
    } else if s == debug_text() {
        20
    } else if s == trace_text() {
        10
    } else {
        0
    }
}

/// Maps a level's text to the numeric bunyan level.
pub fn to_bunyan_level(level: &str) -> (r: u8)
    ensures
        r == bunyan_level_of(level.spec_bytes()),
{
    let b = level.as_bytes();
    let mut e: Vec<u8> = Vec::new();
    e.push(0x45);
    e.push(0x52);
    e.push(0x52);
    e.push(0x4f);
    e.push(0x52);
    proof {
        assert(e@ =~= error_text());
    }
    if bytes_eq(b, e.as_slice()) {
        return 50;
    }
    let mut w: Vec<u8> = Vec::new();
    w.push(0x57);
    w.push(0x41);
    w.push(0x52);
    w.push(0x4e);
    proof {
        assert(w@ =~= warn_text());
    }
    if bytes_eq(b, w.as_slice()) {
        return 40;
    }
    let mut i: Vec<u8> = Vec::new();
    i.push(0x49);
    i.push(0x4e);
    i.push(0x46);
    i.push(0x4f);
    proof {
        assert(i@ =~= info_text());
    }
    if bytes_eq(b, i.as_slice()) {
        return 30;
    }
    let mut d: Vec<u8> = Vec::new();
    d.push(0x44);
    d.push(0x45);
    d.push(0x42);
    d.push(0x55);
    d.push(0x47);
    proof {
        assert(d@ =~= debug_text());
    }
    if bytes_eq(b, d.as_slice()) {
        return 20;
    }
    let mut t: Vec<u8> = Vec::new();
    t.push(0x54);
    t.push(0x52);
    t.push(0x41);
    t.push(0x43);
    t.push(0x45);
    proof {
        assert(t@ =~= trace_text());
    }
    if bytes_eq(b, t.as_slice()) {
        return 10;
    }
    0
}

} // verus!
