//! Decimal rendering of machine integers, used by the `Print` instruction.

use vstd::prelude::*;

verus! {

/// The decimal digits of `n`, most significant first.
pub open spec fn dec_digits(n: nat) -> Seq<u8>
    decreases n,
{
    if n < 10 {
        seq![(48 + n) as u8]
    } else {
        dec_digits(n / 10).push((48 + n % 10) as u8)
    }
}

/// The decimal rendering of an integer: a minus sign for negative values,
/// then the digits of the absolute value.
pub open spec fn i64_dec(n: int) -> Seq<u8> {
    if n < 0 {
        seq![45u8] + dec_digits((-n) as nat)
    } else {
        dec_digits(n as nat)
    }
}

/// Renders `n` in decimal, exactly as [`i64_dec`] describes.
pub fn format_i64(n: i64) -> (r: Vec<u8>)
    ensures
        r@ == i64_dec(n as int),
{
    let neg = n < 0;
    let mut m: u64 = if n < 0 {
        (-(n as i128)) as u64
    } else {
        n as u64
    };
    let ghost m0: nat = m as nat;
    let mut digits: Vec<u8> = Vec::new();
    loop
        invariant
            m as nat <= m0,
            digits@.len() == 0 ==> m as nat == m0,
            digits@.len() > 0 && m > 0 ==> dec_digits(m0) == dec_digits(m as nat)
                + digits@.reverse(),
            digits@.len() > 0 && m == 0 ==> dec_digits(m0) == digits@.reverse(),
        ensures
            digits@.len() > 0,
            dec_digits(m0) == digits@.reverse(),
        decreases m, (if digits.len() == 0 { 1int } else { 0int }),
    {
        if m == 0 && digits.len() > 0 {
            break;
        }
        let d: u8 = 48 + (m % 10) as u8;
        let ghost mprev: nat = m as nat;
        let ghost dprev = digits@;
        digits.push(d);
        m = m / 10;
        proof {
            assert(digits@.reverse() =~= seq![d] + dprev.reverse());
            if mprev < 10 {
                assert(dec_digits(mprev) =~= seq![d]);
                if dprev.len() == 0 {
                    assert(dec_digits(m0) =~= seq![d] + dprev.reverse());
                } else {
                    assert(dec_digits(mprev) + dprev.reverse() =~= seq![d] + dprev.reverse());
                }
            } else {
                assert(dec_digits(mprev) == dec_digits(mprev / 10).push(d));
                assert(dec_digits(mprev / 10).push(d) + dprev.reverse() =~= dec_digits(
                    mprev / 10,
                ) + (seq![d] + dprev.reverse()));
                if dprev.len() == 0 {
                    assert(dec_digits(m0) =~= dec_digits(m as nat) + digits@.reverse());
                }
            }
        }
    }
    let mut out: Vec<u8> = Vec::new();
    if neg {
        out.push(45);
    }
    let mut i: usize = digits.len();
    while i > 0
        invariant
            i <= digits@.len(),
            out@ == (if neg {
                seq![45u8]
            } else {
                Seq::<u8>::empty()
            }) + digits@.reverse().take(digits@.len() - i),
        decreases i,
    {
        i = i - 1;
        let ghost oprev = out@;
        out.push(digits[i]);
        proof {
            assert(digits@.reverse()[digits@.len() - i - 1] == digits@[i as int]);
            assert(out@ =~= oprev.push(digits@.reverse()[digits@.len() - i - 1]));
            assert(digits@.reverse().take(digits@.len() - i) =~= digits@.reverse().take(
                digits@.len() - i - 1,
            ).push(digits@.reverse()[digits@.len() - i - 1]));
        }
    }
    proof {
        assert(digits@.reverse().take(digits@.len() as int) =~= digits@.reverse());
        if n >= 0 {
            assert(m0 == n as nat);
            assert(out@ =~= dec_digits(n as nat));
        } else {
            assert(m0 == (-(n as int)) as nat);
            assert(out@ =~= seq![45u8] + dec_digits((-(n as int)) as nat));
        }
    }
    out
}

} // verus!
