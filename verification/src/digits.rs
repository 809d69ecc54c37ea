//! Decimal rendering of integers into byte buffers, used by the debug
//! instruction's output.

use vstd::prelude::*;

verus! {

/// The decimal digits of `n`, most significant first, as ASCII bytes.
pub open spec fn dec_digits(n: nat) -> Seq<u8>
    decreases n,
{
    if n < 10 {
        seq![(48 + n) as u8]
    } else {
        dec_digits(n / 10) + seq![(48 + n % 10) as u8]
    }
}

/// The decimal rendering of `v`, with a leading `-` when negative.
pub open spec fn dec_int(v: int) -> Seq<u8> {
    if v < 0 {
        seq![45u8] + dec_digits((-v) as nat)
    } else {
        dec_digits(v as nat)
    }
}

/// Append the decimal digits of `v` to `out`.
pub(crate) fn push_udec(out: &mut Vec<u8>, v: u128)
    ensures
        final(out)@ == old(out)@ + dec_digits(v as nat),
{
    let mut tmp: Vec<u8> = Vec::new();
    let mut x: u128 = v;
    loop
        invariant_except_break
            dec_digits(v as nat) == dec_digits(x as nat) + tmp@.reverse(),
        ensures
            dec_digits(v as nat) == tmp@.reverse(),
            tmp@.len() >= 1,
        decreases x,
    {
        let d: u8 = 48 + (x % 10) as u8;
        proof {
            lemma_reverse_push(tmp@, d);
            if x >= 10 {
                assert(dec_digits(x as nat) == dec_digits((x as nat) / 10) + seq![
                    (48 + (x as nat) % 10) as u8,
                ]);
            }
        }
        tmp.push(d);
        x = x / 10;
        if x == 0 {
            break ;
        }
    }
    let mut i: usize = tmp.len();
    proof {
        assert(out@ =~= old(out)@ + dec_digits(v as nat).subrange(0, tmp@.len() - i));
    }
    while i > 0
        invariant
            i <= tmp@.len(),
            tmp@.reverse() == dec_digits(v as nat),
            out@ == old(out)@ + dec_digits(v as nat).subrange(0, tmp@.len() - i),
        decreases i,
    {
        i = i - 1;
        out.push(tmp[i]);
        proof {
            let digits = dec_digits(v as nat);
            assert(digits.len() == tmp@.len());
            assert(tmp@[i as int] == digits[tmp@.len() - 1 - i]);
            assert(out@ =~= old(out)@ + digits.subrange(0, tmp@.len() - i));
        }
    }
    proof {
        assert(out@ =~= old(out)@ + dec_digits(v as nat));
    }
}

/// Append the decimal rendering of `v`, with its sign, to `out`.
pub(crate) fn push_idec(out: &mut Vec<u8>, v: i128)
    requires
        v > i128::MIN,
    ensures
        final(out)@ == old(out)@ + dec_int(v as int),
{
    if v < 0 {
        out.push(45);
        push_udec(out, (-v) as u128);
        proof {
            assert(out@ =~= old(out)@ + dec_int(v as int));
        }
    } else {
        push_udec(out, v as u128);
    }
}

/// Reversing after a push puts the pushed element first.
proof fn lemma_reverse_push(s: Seq<u8>, a: u8)
    ensures
        s.push(a).reverse() == seq![a] + s.reverse(),
{
    let lhs = s.push(a).reverse();
    let rhs = seq![a] + s.reverse();
    assert forall|k: int| 0 <= k < lhs.len() implies lhs[k] == rhs[k] by {
        if k == 0 {
        } else {
            assert(lhs[k] == s.push(a)[s.len() - k]);
            assert(rhs[k] == s.reverse()[k - 1]);
        }
    }
    assert(lhs =~= rhs);
}

} // verus!
