//! Decimal rendering of line numbers: the digits of an integer, and the
//! right-justified width-6 field used by the numbering stage.

use vstd::prelude::*;

verus! {

/// The character for one decimal digit.
pub open spec fn digit_char(d: nat) -> char
    recommends
        d < 10,
{
    ((d + 0x30) as u8) as char
}

/// The decimal digits of a natural number, most significant first.
pub open spec fn dec_digits(n: nat) -> Seq<char>
    decreases n,
{
    if n < 10 {
        seq![digit_char(n)]
    } else {
        dec_digits(n / 10) + seq![digit_char(n % 10)]
    }
}

/// The decimal rendering of an integer: the digits of its magnitude,
/// preceded by a minus sign when it is negative.
pub open spec fn dec_int(n: int) -> Seq<char> {
    if n >= 0 {
        dec_digits(n as nat)
    } else {
        seq!['-'] + dec_digits((-n) as nat)
    }
}

/// A run of space characters.
pub open spec fn space_run(n: nat) -> Seq<char> {
    Seq::new(n, |i: int| ' ')
}

/// An integer right-justified in a field of width 6: padded on the left
/// with spaces when its rendering is shorter, unpadded otherwise.
pub open spec fn dec_int_width6(n: int) -> Seq<char> {
    if dec_int(n).len() >= 6 {
        dec_int(n)
    } else {
        space_run((6 - dec_int(n).len()) as nat) + dec_int(n)
    }
}

/// No character of a decimal rendering is a newline (or a tab).
pub proof fn lemma_dec_digits_no_newline(n: nat)
    ensures
        forall|i: int|
            0 <= i < dec_digits(n).len() ==> (#[trigger] dec_digits(n)[i]) != '\n'
                && dec_digits(n)[i] != '\t',
    decreases n,
{
    assert('\n' as u32 == 10);
    assert('\t' as u32 == 9);
    if n < 10 {
        assert(digit_char(n) as u32 == n + 0x30);
        assert(digit_char(n) != '\n' && digit_char(n) != '\t');
    } else {
        lemma_dec_digits_no_newline(n / 10);
        assert(digit_char(n % 10) as u32 == (n % 10) + 0x30);
        assert(digit_char(n % 10) != '\n' && digit_char(n % 10) != '\t');
        let d = dec_digits(n);
        let a = dec_digits(n / 10);
        assert forall|i: int| 0 <= i < d.len() implies (#[trigger] d[i]) != '\n' && d[i]
            != '\t' by {
            if i < a.len() {
                assert(d[i] == a[i]);
            } else {
                assert(d[i] == digit_char(n % 10));
            }
        }
    }
}

/// The width-6 field holds no newline and no tab.
pub proof fn lemma_dec_int_width6_no_newline(n: int)
    ensures
        forall|i: int|
            0 <= i < dec_int_width6(n).len() ==> (#[trigger] dec_int_width6(n)[i]) != '\n'
                && dec_int_width6(n)[i] != '\t',
{
    if n >= 0 {
        lemma_dec_digits_no_newline(n as nat);
    } else {
        lemma_dec_digits_no_newline((-n) as nat);
    }
}

/// The decimal digits of a 64-bit magnitude, least significant first in
/// the accumulator, reversed at the end.
fn digits_of_u64(m: u64) -> (r: Vec<char>)
    ensures
        r@ == dec_digits(m as nat),
{
    let mut rev: Vec<char> = Vec::new();
    let mut cur: u64 = m;
    proof {
        assert(dec_digits(cur as nat) + rev@.reverse() =~= dec_digits(m as nat));
    }
    while cur >= 10
        invariant
            dec_digits(cur as nat) + rev@.reverse() == dec_digits(m as nat),
        decreases cur,
    {
        let d = (cur % 10) as u8;
        let ghost prev = rev@;
        rev.push((d + 0x30) as char);
        proof {
            assert(rev@.reverse() =~= seq![digit_char((cur as nat) % 10)] + prev.reverse());
            assert(dec_digits((cur as nat) / 10) + rev@.reverse() =~= dec_digits(cur as nat)
                + prev.reverse());
            assert(dec_digits((cur as nat) / 10) + rev@.reverse() =~= dec_digits(m as nat));
            assert((cur / 10) as nat == (cur as nat) / 10);
        }
        cur = cur / 10;
    }
    let d = (cur % 10) as u8;
    let ghost prev = rev@;
    rev.push((d + 0x30) as char);
    proof {
        assert(cur as nat % 10 == cur as nat) by {
            assert(cur < 10);
        }
        assert(rev@.reverse() =~= seq![digit_char(cur as nat)] + prev.reverse());
        assert(rev@.reverse() =~= dec_digits(m as nat));
    }
    let mut r: Vec<char> = Vec::new();
    let mut k: usize = rev.len();
    while k > 0
        invariant
            0 <= k <= rev@.len(),
            r@ == rev@.reverse().take(rev@.len() - k),
        decreases k,
    {
        k = k - 1;
        r.push(rev[k]);
        proof {
            assert(rev@[k as int] == rev@.reverse()[rev@.len() - 1 - k]);
            assert(r@ =~= rev@.reverse().take(rev@.len() - k));
        }
    }
    proof {
        assert(rev@.reverse().take(rev@.len() as int) =~= rev@.reverse());
    }
    r
}

/// The decimal rendering of an integer, as characters.
pub fn format_number(n: i32) -> (r: Vec<char>)
    ensures
        r@ == dec_int(n as int),
{
    if n >= 0 {
        digits_of_u64(n as u64)
    } else {
        let m: u64 = (-(n as i64)) as u64;
        let digits = digits_of_u64(m);
        let mut r: Vec<char> = Vec::new();
        r.push('-');
        let mut k: usize = 0;
        while k < digits.len()
            invariant
                0 <= k <= digits@.len(),
                digits@ == dec_digits(m as nat),
                r@ == seq!['-'] + digits@.take(k as int),
            decreases digits@.len() - k,
        {
            r.push(digits[k]);
            proof {
                assert(r@ =~= seq!['-'] + digits@.take(k as int + 1));
            }
            k = k + 1;
        }
        proof {
            assert(digits@.take(digits@.len() as int) =~= digits@);
            assert(m as nat == (-(n as int)) as nat);
        }
        r
    }
}

/// The decimal rendering of an integer, right-justified in a width-6
/// field, as characters.
pub fn format_number_width6(n: i32) -> (r: Vec<char>)
    ensures
        r@ == dec_int_width6(n as int),
{
    let digits = format_number(n);
    if digits.len() >= 6 {
        digits
    } else {
        let pad: usize = 6 - digits.len();
        let mut r: Vec<char> = Vec::new();
        let mut k: usize = 0;
        while k < pad
            invariant
                0 <= k <= pad,
                r@ == space_run(k as nat),
            decreases pad - k,
        {
            r.push(' ');
            proof {
                assert(r@ =~= space_run(k as nat + 1));
            }
            k = k + 1;
        }
        let mut j: usize = 0;
        while j < digits.len()
            invariant
                0 <= j <= digits@.len(),
                digits@ == dec_int(n as int),
                pad == 6 - digits@.len(),
                r@ == space_run(pad as nat) + digits@.take(j as int),
            decreases digits@.len() - j,
        {
            r.push(digits[j]);
            proof {
                assert(r@ =~= space_run(pad as nat) + digits@.take(j as int + 1));
            }
            j = j + 1;
        }
        proof {
            assert(digits@.take(digits@.len() as int) =~= digits@);
        }
        r
    }
}

} // verus!
