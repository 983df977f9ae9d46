//! Lexicographic order and equality on byte sequences.

use vstd::prelude::*;

verus! {

/// Strict lexicographic order on byte sequences.
pub open spec fn lex_lt(a: Seq<u8>, b: Seq<u8>) -> bool
    decreases a.len(),
{
    if b.len() == 0 {
        false
    } else if a.len() == 0 {
        true
    } else if a.first() < b.first() {
        true
    } else if a.first() > b.first() {
        false
    } else {
        lex_lt(a.drop_first(), b.drop_first())
    }
}

/// Three-way comparison of two byte slices in lexicographic order.
/// Returns -1, 0 or 1.
pub fn cmp_bytes(a: &[u8], b: &[u8]) -> (r: i8)
    ensures
        r == -1 <==> lex_lt(a@, b@),
        r == 0 <==> a@ == b@,
        r == 1 <==> lex_lt(b@, a@),
        r == -1 || r == 0 || r == 1,
{
    let mut i: usize = 0;
    proof {
        assert(a@.subrange(0, a@.len() as int) =~= a@);
        assert(b@.subrange(0, b@.len() as int) =~= b@);
    }
    loop
        invariant
            i <= a@.len(),
            i <= b@.len(),
            a@.subrange(0, i as int) =~= b@.subrange(0, i as int),
            lex_lt(a@, b@) <==> lex_lt(
                a@.subrange(i as int, a@.len() as int),
                b@.subrange(i as int, b@.len() as int),
            ),
            lex_lt(b@, a@) <==> lex_lt(
                b@.subrange(i as int, b@.len() as int),
                a@.subrange(i as int, a@.len() as int),
            ),
            (a@ == b@) <==> (a@.subrange(i as int, a@.len() as int) =~= b@.subrange(
                i as int,
                b@.len() as int,
            )),
        decreases a@.len() - i,
    {
        let ghost resta = a@.subrange(i as int, a@.len() as int);
        let ghost restb = b@.subrange(i as int, b@.len() as int);
        if i >= a.len() {
            if i >= b.len() {
                proof {
                    assert(resta =~= Seq::<u8>::empty());
                    assert(restb =~= Seq::<u8>::empty());
                }
                return 0;
            } else {
                proof {
                    assert(resta =~= Seq::<u8>::empty());
                    assert(restb.len() > 0);
                    assert(lex_lt(resta, restb));
                    assert(resta != restb);
                }
                return -1;
            }
        }
        if i >= b.len() {
            proof {
                assert(restb =~= Seq::<u8>::empty());
                assert(resta.len() > 0);
                assert(lex_lt(restb, resta));
                assert(resta != restb);
            }
            return 1;
        }
        let x = a[i];
        let y = b[i];
        proof {
            assert(resta.first() == a@[i as int]);
            assert(restb.first() == b@[i as int]);
            assert(resta.drop_first() =~= a@.subrange(i + 1, a@.len() as int));
            assert(restb.drop_first() =~= b@.subrange(i + 1, b@.len() as int));
        }
        if x < y {
            proof {
                assert(lex_lt(resta, restb));
                assert(resta != restb) by {
                    assert(resta.first() != restb.first());
                }
            }
            return -1;
        }
        if x > y {
            proof {
                assert(lex_lt(restb, resta));
                assert(resta != restb) by {
                    assert(resta.first() != restb.first());
                }
            }
            return 1;
        }
        proof {
            assert(a@.subrange(0, i + 1) =~= b@.subrange(0, i + 1)) by {
                assert(forall|j: int|
                    0 <= j < i + 1 ==> #[trigger] a@.subrange(0, i + 1)[j] == b@.subrange(
                        0,
                        i + 1,
                    )[j]);
            }
            assert((resta =~= restb) <==> (resta.drop_first() =~= restb.drop_first())) by {
                if resta.drop_first() =~= restb.drop_first() {
                    assert(resta =~= seq![resta.first()] + resta.drop_first());
                    assert(restb =~= seq![restb.first()] + restb.drop_first());
                }
            }
        }
        i += 1;
    }
}

/// Whether two byte slices hold the same bytes.
pub fn bytes_eq(a: &[u8], b: &[u8]) -> (r: bool)
    ensures
        r == (a@ == b@),
{
    cmp_bytes(a, b) == 0
}

/// Appends `src[from..to]` to `out`.
pub fn push_subrange(out: &mut Vec<u8>, src: &Vec<u8>, from: usize, to: usize)
    requires
        from <= to <= src@.len(),
    ensures
        final(out)@ == old(out)@ + src@.subrange(from as int, to as int),
{
    let ghost orig = out@;
    let mut j = from;
    proof {
        assert(src@.subrange(from as int, from as int) =~= Seq::<u8>::empty());
    }
    while j < to
        invariant
            from <= j <= to <= src@.len(),
            out@ == orig + src@.subrange(from as int, j as int),
        decreases to - j,
    {
        out.push(src[j]);
        proof {
            let cur = src@.subrange(from as int, j + 1);
            assert(cur.drop_last() =~= src@.subrange(from as int, j as int));
            assert(cur.last() == src@[j as int]);
            assert(out@ =~= orig + cur);
        }
        j += 1;
    }
}

/// The order is irreflexive: equal sequences are not ordered.
pub proof fn lemma_lex_lt_irrefl(a: Seq<u8>)
    ensures
        !lex_lt(a, a),
    decreases a.len(),
{
    if a.len() > 0 {
        lemma_lex_lt_irrefl(a.drop_first());
    }
}

/// The order is total: two sequences are ordered one way, the other, or
/// equal.
pub proof fn lemma_lex_lt_total(a: Seq<u8>, b: Seq<u8>)
    ensures
        lex_lt(a, b) || a == b || lex_lt(b, a),
    decreases a.len(),
{
    if a.len() == 0 {
        if b.len() == 0 {
            assert(a =~= b);
        }
    } else if b.len() == 0 {
    } else if a.first() == b.first() {
        lemma_lex_lt_total(a.drop_first(), b.drop_first());
        if a.drop_first() == b.drop_first() {
            assert(a =~= seq![a.first()] + a.drop_first());
            assert(b =~= seq![b.first()] + b.drop_first());
        }
    }
}

/// The order is transitive.
pub proof fn lemma_lex_lt_trans(a: Seq<u8>, b: Seq<u8>, c: Seq<u8>)
    requires
        lex_lt(a, b),
        lex_lt(b, c),
    ensures
        lex_lt(a, c),
    decreases a.len(),
{
    if a.len() > 0 && b.len() > 0 && c.len() > 0 {
        if a.first() == b.first() && b.first() == c.first() {
            lemma_lex_lt_trans(a.drop_first(), b.drop_first(), c.drop_first());
        }
    }
}

} // verus!
