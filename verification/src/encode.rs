//! The byte-to-display encoder: rewrites one input byte into the zero, one
//! or two output bytes of the `^X` / `M-` visibility notation.

use vstd::prelude::*;

verus! {

/// Caret notation for a byte in the 7-bit range: printable bytes stand for
/// themselves, DEL becomes `^?`, and the remaining control bytes become
/// `^` followed by the byte shifted up by 0x40.
pub open spec fn caret_notation(r: u8) -> Seq<u8>
    recommends
        r <= 0x7F,
{
    if 0x20 <= r <= 0x7E {
        seq![r]
    } else if r == 0x7F {
        seq![0x5Eu8, 0x3Fu8]
    } else {
        seq![0x5Eu8, (r + 0x40) as u8]
    }
}

/// The full per-byte encoding table. Printable bytes pass through; DEL is
/// `^?`; a byte with the high bit set is prefixed with `M-` and its low
/// seven bits are put in caret notation; tab passes through untouched;
/// newline is the line delimiter and produces nothing; the remaining
/// control bytes are put in caret notation.
pub open spec fn encoded_byte(b: u8) -> Seq<u8> {
    if 0x20 <= b <= 0x7E {
        seq![b]
    } else if b == 0x7F {
        seq![0x5Eu8, 0x3Fu8]
    } else if b >= 0x80 {
        seq![0x4Du8, 0x2Du8] + caret_notation((b - 0x80) as u8)
    } else if b == 0x09 {
        seq![b]
    } else if b == 0x0A {
        seq![]
    } else {
        caret_notation(b)
    }
}

/// Encode one byte of input into its visible form.
pub fn process_byte(ch: u8) -> (output: Vec<u8>)
    ensures
        output@ == encoded_byte(ch),
{
    let mut output: Vec<u8> = Vec::new();
    if 0x20 <= ch && ch <= 0x7E {
        output.push(ch);
    } else if ch == 0x7F {
        output.push(0x5E);
        output.push(0x3F);
    } else if ch >= 0x80 {
        output.push(0x4D);
        output.push(0x2D);
        let r = ch - 0x80;
        if 0x20 <= r && r <= 0x7E {
            output.push(r);
        } else if r == 0x7F {
            output.push(0x5E);
            output.push(0x3F);
        } else {
            output.push(0x5E);
            output.push(r + 0x40);
        }
    } else if ch == 0x09 {
        output.push(ch);
    } else if ch != 0x0A {
        output.push(0x5E);
        output.push(ch + 0x40);
    }
    assert(output@ =~= encoded_byte(ch));
    output
}

/// Identity on printable ASCII: a byte in 0x20..=0x7E encodes to itself.
pub proof fn lemma_encode_printable_identity(b: u8)
    requires
        0x20 <= b <= 0x7E,
    ensures
        encoded_byte(b) == seq![b],
{
}

/// The encoder's output invariant: every byte it emits is printable
/// ASCII or the tab that is deliberately passed through — never a
/// newline, and never a byte that would itself need escaping.
pub proof fn lemma_encoded_byte_visible(b: u8)
    ensures
        forall|i: int|
            0 <= i < encoded_byte(b).len() ==> (0x20 <= (#[trigger] encoded_byte(b)[i])
                <= 0x7E || encoded_byte(b)[i] == 0x09),
{
}

} // verus!
