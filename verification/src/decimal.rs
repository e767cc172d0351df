//! Decimal rendering of lengths, as written in multipart part headers.
use vstd::prelude::*;

verus! {

/// ASCII code of the digit zero.
pub const ASCII_ZERO: u8 = 0x30;

/// The shortest decimal rendering of `n` in ASCII digits, most significant first.
pub open spec fn decimal(n: nat) -> Seq<u8>
    decreases n,
{
    if n < 10 {
        seq![(ASCII_ZERO + n) as u8]
    } else {
        decimal(n / 10).push((ASCII_ZERO + n % 10) as u8)
    }
}

/// Every byte of `s` is an ASCII digit.
pub open spec fn all_digits(s: Seq<u8>) -> bool {
    forall|i: int| 0 <= i < s.len() ==> ASCII_ZERO <= #[trigger] s[i] <= ASCII_ZERO + 9
}

/// The number that a string of ASCII digits denotes.
pub open spec fn digits_value(s: Seq<u8>) -> nat
    decreases s.len(),
{
    if s.len() == 0 {
        0
    } else {
        (digits_value(s.drop_last()) * 10 + (s.last() - ASCII_ZERO)) as nat
    }
}

/// A decimal rendering is a non-empty string of digits, without a leading
/// zero unless the number is zero, and it denotes the number rendered.
pub proof fn lemma_decimal_round_trip(n: nat)
    ensures
        decimal(n).len() >= 1,
        n >= 10 ==> decimal(n).len() > 1,
        all_digits(decimal(n)),
        decimal(n).len() > 1 ==> decimal(n)[0] != ASCII_ZERO,
        digits_value(decimal(n)) == n,
    decreases n,
{
    if n < 10 {
        let d = decimal(n);
        assert(d.drop_last() =~= Seq::<u8>::empty());
        assert(d.last() == ASCII_ZERO + n);
        assert(digits_value(d) == digits_value(d.drop_last()) * 10 + (d.last() - ASCII_ZERO));
    } else {
        lemma_decimal_round_trip(n / 10);
        if n / 10 < 10 {
            assert(decimal(n / 10)[0] == ASCII_ZERO + n / 10);
        }
        let d = decimal(n);
        let prefix = decimal(n / 10);
        assert(d.drop_last() =~= prefix);
        assert(d.last() == (ASCII_ZERO + n % 10) as u8);
        assert(d[0] == prefix[0]);
        assert forall|i: int| 0 <= i < d.len() implies ASCII_ZERO <= #[trigger] d[i] <= ASCII_ZERO
            + 9 by {
            if i < prefix.len() {
                assert(d[i] == prefix[i]);
            }
        }
        assert(n == (n / 10) * 10 + n % 10);
        assert(digits_value(d) == digits_value(prefix) * 10 + (d.last() - ASCII_ZERO));
    }
}

/// Appends the decimal rendering of `n` to `out`.
pub fn push_decimal(out: &mut Vec<u8>, n: usize)
    ensures
        final(out)@ == old(out)@ + decimal(n as nat),
    decreases n,
{
    if n < 10 {
        out.push(ASCII_ZERO + n as u8);
        proof {
            assert(old(out)@.push((ASCII_ZERO + n) as u8) =~= old(out)@ + decimal(n as nat));
        }
    } else {
        push_decimal(out, n / 10);
        out.push(ASCII_ZERO + (n % 10) as u8);
        proof {
            assert(old(out)@ + decimal((n / 10) as nat) + seq![(ASCII_ZERO + n % 10) as u8]
                =~= old(out)@ + decimal(n as nat));
        }
    }
}

/// The decimal rendering of `n`.
pub fn render_decimal(n: usize) -> (r: Vec<u8>)
    ensures
        r@ == decimal(n as nat),
{
    let mut out: Vec<u8> = Vec::new();
    push_decimal(&mut out, n);
    proof {
        assert(Seq::<u8>::empty() + decimal(n as nat) =~= decimal(n as nat));
    }
    out
}

} // verus!
