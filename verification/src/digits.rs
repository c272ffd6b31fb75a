//! Decimal numerals, as they appear in headers and request lines.

use vstd::prelude::*;

verus! {

/// `n` in decimal, without leading zeros (`0` for zero).
pub open spec fn dec_digits(n: nat) -> Seq<u8>
    decreases n,
{
    if n < 10 {
        seq![(48 + n) as u8]
    } else {
        dec_digits(n / 10).push((48 + n % 10) as u8)
    }
}

/// Appends `n` in decimal to `out`.
pub fn write_dec(n: u64, out: &mut Vec<u8>)
    ensures
        final(out)@ == old(out)@ + dec_digits(n as nat),
{
    let mut digits: Vec<u8> = Vec::new();
    let mut m: u64 = n;
    loop
        invariant_except_break
            dec_digits(n as nat) == dec_digits(m as nat) + digits@.reverse(),
        ensures
            dec_digits(n as nat) == digits@.reverse(),
        decreases m,
    {
        let c: u8 = (48 + m % 10) as u8;
        let ghost prev = digits@;
        digits.push(c);
        proof {
            assert(digits@.reverse() =~= seq![c] + prev.reverse());
        }
        if m < 10 {
            proof {
                assert(dec_digits(m as nat) =~= seq![c]);
                assert(dec_digits(n as nat) =~= digits@.reverse());
            }
            break;
        }
        proof {
            assert(dec_digits(m as nat) =~= dec_digits((m / 10) as nat).push(c));
            assert(dec_digits((m / 10) as nat).push(c) + prev.reverse() =~= dec_digits((m / 10) as nat) + (seq![c]
                + prev.reverse()));
        }
        m = m / 10;
    }
    let ghost start = out@;
    let mut i: usize = digits.len();
    while i > 0
        invariant
            i <= digits@.len(),
            dec_digits(n as nat) == digits@.reverse(),
            out@ == start + digits@.reverse().take(digits@.len() - i),
        decreases i,
    {
        i = i - 1;
        out.push(digits[i]);
        proof {
            assert(digits@.reverse().take(digits@.len() - i) =~= digits@.reverse().take(digits@.len() - i - 1).push(
                digits@[i as int],
            ));
        }
    }
    assert(digits@.reverse().take(digits@.len() as int) =~= digits@.reverse());
}

/// `n` in decimal.
pub fn dec_bytes(n: u64) -> (r: Vec<u8>)
    ensures
        r@ == dec_digits(n as nat),
{
    let mut r: Vec<u8> = Vec::new();
    write_dec(n, &mut r);
    assert(r@ =~= dec_digits(n as nat));
    r
}

} // verus!
