//! Decimal numbers as they appear in response headers.

use vstd::arithmetic::power::*;
use vstd::prelude::*;

verus! {

/// The decimal digits of `n`, most significant first.
pub open spec fn decimal(n: nat) -> Seq<u8>
    decreases n,
{
    if n < 10 {
        seq![('0' as u8 + n) as u8]
    } else {
        decimal(n / 10).push(('0' as u8 + n % 10) as u8)
    }
}

/// Formats `n` into `buf`, returning the populated slice.
///
/// `buf` must hold 20 bytes, enough for any `usize` on a 64-bit target.
pub fn format_usize(buf: &mut [u8; 20], n: usize) -> (text: &[u8])
    ensures
        text@ == decimal(n as nat),
        final(buf)@ == old(buf)@.take(20 - text@.len()) + text@,
{
    let mut n: usize = n;
    let mut i: usize = 20;
    let ghost whole = n as nat;
    proof {
        assert(pow(10, 20) == 100_000_000_000_000_000_000) by {
            reveal_with_fuel(pow, 21);
        }
        assert(decimal(whole) =~= decimal(n as nat) + buf@.skip(20));
    }
    loop
        invariant_except_break
            i <= 20,
            i == 20 || n > 0,
            n < pow(10, i as nat),
            decimal(whole) == decimal(n as nat) + buf@.skip(i as int),
            buf@.take(i as int) == old(buf)@.take(i as int),
        ensures
            i < 20,
            decimal(whole) == buf@.skip(i as int),
            buf@.take(i as int) == old(buf)@.take(i as int),
        decreases i,
    {
        let ghost before = buf@;
        proof {
            reveal(pow);
        }
        i -= 1;
        buf[i] = '0' as u8 + (n % 10) as u8;
        proof {
            assert(buf@.take(i as int) =~= before.take(i + 1).take(i as int));
            assert(old(buf)@.take(i as int) =~= old(buf)@.take(i + 1).take(i as int));
            assert(buf@.skip(i as int) =~= seq![buf@[i as int]] + before.skip(i + 1));
        }
        n /= 10;
        if n == 0 {
            break ;
        }
    }
    assert(buf@ =~= old(buf)@.take(i as int) + buf@.skip(i as int));
    let bytes: &[u8] = buf;
    &bytes[i..20]
}

/// Appends the decimal digits of `n` to `out`.
pub fn push_decimal(out: &mut Vec<u8>, n: u64)
    ensures
        final(out)@ == old(out)@ + decimal(n as nat),
    decreases n,
{
    if n >= 10 {
        push_decimal(out, n / 10);
    }
    out.push('0' as u8 + (n % 10) as u8);
}

/// The number that decimal digits stand for.
pub open spec fn decimal_value(digits: Seq<u8>) -> nat
    decreases digits.len(),
{
    if digits.len() == 0 {
        0
    } else {
        (10 * decimal_value(digits.drop_last()) + digits.last() - '0' as u8) as nat
    }
}

/// What is written is the number: it consists of digits, has no leading zero
/// unless it is zero, and reads back as the number.
pub proof fn law_decimal_is_the_number(n: nat)
    ensures
        decimal(n).len() > 0,
        forall|i: int|
            0 <= i < decimal(n).len() ==> '0' as u8 <= #[trigger] decimal(n)[i] <= '9' as u8,
        decimal(n)[0] == '0' as u8 ==> n == 0,
        decimal_value(decimal(n)) == n,
    decreases n,
{
    if n < 10 {
        assert(decimal(n).drop_last() =~= Seq::<u8>::empty());
        assert(decimal_value(Seq::<u8>::empty()) == 0);
    } else {
        law_decimal_is_the_number(n / 10);
        assert(decimal(n).drop_last() =~= decimal(n / 10));
    }
}

/// A number of at most `digits` digits is written in no more.
pub proof fn lemma_decimal_len(n: nat, digits: nat)
    requires
        digits > 0,
        n < pow(10, digits),
    ensures
        decimal(n).len() <= digits,
    decreases digits,
{
    reveal(pow);
    if n >= 10 {
        assert(digits > 1) by {
            if digits == 1 {
                assert(pow(10, 0) == 1);
            }
        }
        lemma_decimal_len(n / 10, (digits - 1) as nat);
    }
}

/// A number is written with the ten digits: one below ten as its digit, and
/// any other as what it is without its last digit, and then that digit.
pub proof fn law_decimal_goes_by_tens(n: nat, digit: nat)
    requires
        digit < 10,
    ensures
        decimal(digit) == seq![(48 + digit) as u8],
        n > 0 ==> decimal(10 * n + digit) == decimal(n).push((48 + digit) as u8),
{
    if n > 0 {
        assert((10 * n + digit) / 10 == n && (10 * n + digit) % 10 == digit);
    }
}

} // verus!
