//! Decimal rendering of integers and the JSON number-token grammar.

use vstd::prelude::*;

verus! {

/// Decimal digits of `n`, most significant first, with no leading zero.
pub open spec fn dec_digits(n: nat) -> Seq<u8>
    decreases n,
{
    if n < 10 {
        seq![(0x30 + n) as u8]
    } else {
        dec_digits(n / 10) + seq![(0x30 + n % 10) as u8]
    }
}

/// The JSON rendering of an unsigned integer.
pub open spec fn render_u64(n: u64) -> Seq<u8> {
    dec_digits(n as nat)
}

/// The JSON rendering of a signed integer: a minus sign when negative,
/// then the decimal digits of the magnitude.
pub open spec fn render_i64(i: i64) -> Seq<u8> {
    if i < 0 {
        seq![0x2du8] + dec_digits((-(i as int)) as nat)
    } else {
        dec_digits(i as nat)
    }
}

/// Appends the decimal digits of `n` to `out`.
pub fn push_u64(out: &mut Vec<u8>, n: u64)
    ensures
        final(out)@ == old(out)@ + render_u64(n),
    decreases n,
{
    if n < 10 {
        out.push(0x30 + n as u8);
        proof {
            assert(out@ =~= old(out)@ + dec_digits(n as nat));
        }
    } else {
        push_u64(out, n / 10);
        out.push(0x30 + (n % 10) as u8);
        proof {
            assert(out@ =~= old(out)@ + dec_digits(n as nat));
        }
    }
}

/// Appends the decimal rendering of `i` to `out`.
pub fn push_i64(out: &mut Vec<u8>, i: i64)
    ensures
        final(out)@ == old(out)@ + render_i64(i),
{
    if i >= 0 {
        push_u64(out, i as u64);
    } else {
        out.push(0x2d);
        let mag: u64 = (-(i as i128)) as u64;
        assert(mag as nat == (-(i as int)) as nat);
        push_u64(out, mag);
        proof {
            assert(out@ =~= old(out)@ + render_i64(i));
        }
    }
}

/// One step of the JSON number automaton. States:
/// 0 start, 1 after minus, 2 after a leading zero, 3 in the integer digits,
/// 4 after the decimal point, 5 in the fraction digits, 6 after the
/// exponent letter, 7 after the exponent sign, 8 in the exponent digits,
/// 9 rejected.
pub open spec fn num_step(st: int, b: u8) -> int {
    let digit = 0x30 <= b <= 0x39;
    if st == 0 {
        if b == 0x2d {
            1
        } else if b == 0x30 {
            2
        } else if 0x31 <= b <= 0x39 {
            3
        } else {
            9
        }
    } else if st == 1 {
        if b == 0x30 {
            2
        } else if 0x31 <= b <= 0x39 {
            3
        } else {
            9
        }
    } else if st == 2 {
        if b == 0x2e {
            4
        } else if b == 0x65 || b == 0x45 {
            6
        } else {
            9
        }
    } else if st == 3 {
        if digit {
            3
        } else if b == 0x2e {
            4
        } else if b == 0x65 || b == 0x45 {
            6
        } else {
            9
        }
    } else if st == 4 {
        if digit {
            5
        } else {
            9
        }
    } else if st == 5 {
        if digit {
            5
        } else if b == 0x65 || b == 0x45 {
            6
        } else {
            9
        }
    } else if st == 6 {
        if b == 0x2b || b == 0x2d {
            7
        } else if digit {
            8
        } else {
            9
        }
    } else if st == 7 {
        if digit {
            8
        } else {
            9
        }
    } else if st == 8 {
        if digit {
            8
        } else {
            9
        }
    } else {
        9
    }
}

/// Runs the number automaton over `s` starting in state `st`.
pub open spec fn num_run(st: int, s: Seq<u8>) -> int
    decreases s.len(),
{
    if s.len() == 0 {
        st
    } else {
        num_run(num_step(st, s.first()), s.drop_first())
    }
}

/// Whether `s` is a complete JSON number token.
pub open spec fn is_number_token(s: Seq<u8>) -> bool {
    let end = num_run(0, s);
    end == 2 || end == 3 || end == 5 || end == 8
}

/// Checks `s` against the JSON number grammar.
pub fn check_number_token(s: &[u8]) -> (r: bool)
    ensures
        r == is_number_token(s@),
{
    let mut st: i32 = 0;
    let mut i: usize = 0;
    proof {
        assert(s@.subrange(0, s@.len() as int) =~= s@);
    }
    while i < s.len()
        invariant
            i <= s@.len(),
            num_run(0, s@) == num_run(st as int, s@.subrange(i as int, s@.len() as int)),
            0 <= st <= 9,
        decreases s@.len() - i,
    {
        let b = s[i];
        let digit = 0x30 <= b && b <= 0x39;
        let next: i32 = if st == 0 {
            if b == 0x2d {
                1
            } else if b == 0x30 {
                2
            } else if 0x31 <= b && b <= 0x39 {
                3
            } else {
                9
            }
        } else if st == 1 {
            if b == 0x30 {
                2
            } else if 0x31 <= b && b <= 0x39 {
                3
            } else {
                9
            }
        } else if st == 2 {
            if b == 0x2e {
                4
            } else if b == 0x65 || b == 0x45 {
                6
            } else {
                9
            }
        } else if st == 3 {
            if digit {
                3
            } else if b == 0x2e {
                4
            } else if b == 0x65 || b == 0x45 {
                6
            } else {
                9
            }
        } else if st == 4 {
            if digit {
                5
            } else {
                9
            }
        } else if st == 5 {
            if digit {
                5
            } else if b == 0x65 || b == 0x45 {
                6
            } else {
                9
            }
        } else if st == 6 {
            if b == 0x2b || b == 0x2d {
                7
            } else if digit {
                8
            } else {
                9
            }
        } else if st == 7 {
            if digit {
                8
            } else {
                9
            }
        } else if st == 8 {
            if digit {
                8
            } else {
                9
            }
        } else {
            9
        };
        proof {
            let rest = s@.subrange(i as int, s@.len() as int);
            assert(rest.first() == s@[i as int]);
            assert(rest.drop_first() =~= s@.subrange(i + 1, s@.len() as int));
            assert(next as int == num_step(st as int, s@[i as int]));
        }
        st = next;
        i += 1;
    }
    proof {
        assert(s@.subrange(s@.len() as int, s@.len() as int) =~= Seq::<u8>::empty());
    }
    st == 2 || st == 3 || st == 5 || st == 8
}

} // verus!
