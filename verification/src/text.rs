//! Conversions between strings and their character sequences, and the
//! UTF-8 encoding of a single character, proved against the UTF-8
//! specification in `vstd::utf8`.

use vstd::prelude::*;
use vstd::string::StrSliceExecFns;
use vstd::utf8::char_is_scalar;
use vstd::utf8::encode_scalar;
use vstd::utf8::has_width_3_encoding;
use vstd::utf8::has_width_4_encoding;

verus! {

/// A sequence of 7-bit bytes read back as the characters with the same
/// code points.
pub open spec fn ascii_chars(b: Seq<u8>) -> Seq<char> {
    b.map_values(|x: u8| x as char)
}

/// Read a vector of bytes back as characters, one character per byte.
pub fn chars_of_bytes(v: &Vec<u8>) -> (r: Vec<char>)
    ensures
        r@ == ascii_chars(v@),
{
    let mut r: Vec<char> = Vec::new();
    let mut i: usize = 0;
    while i < v.len()
        invariant
            0 <= i <= v@.len(),
            r@ == ascii_chars(v@).take(i as int),
        decreases v@.len() - i,
    {
        r.push(v[i] as char);
        proof {
            assert(r@ =~= ascii_chars(v@).take(i as int + 1));
        }
        i = i + 1;
    }
    proof {
        assert(ascii_chars(v@).take(v@.len() as int) =~= ascii_chars(v@));
    }
    r
}

/// The characters of a string, in order.
pub fn chars_of(s: &str) -> (r: Vec<char>)
    ensures
        r@ == s@,
{
    let n = s.unicode_len();
    let mut r: Vec<char> = Vec::new();
    let mut i: usize = 0;
    while i < n
        invariant
            0 <= i <= n,
            n == s@.len(),
            r@ == s@.take(i as int),
        decreases n - i,
    {
        let c = s.get_char(i);
        r.push(c);
        proof {
            assert(r@ =~= s@.take(i as int + 1));
        }
        i = i + 1;
    }
    proof {
        assert(s@.take(n as int) =~= s@);
    }
    r
}

/// Relies on `String: FromIterator<char>`: collecting characters builds
/// the string whose characters are exactly those collected, in order.
#[verifier::external_body]
pub(crate) fn string_from_chars(v: &Vec<char>) -> (r: String)
    ensures
        r@ == v@,
{
    v.iter().collect()
}

/// The UTF-8 bytes of one character, computed in verified code and equal
/// to `vstd::utf8::encode_scalar` on its code point.
pub fn utf8_bytes_of_char(c: char) -> (r: Vec<u8>)
    ensures
        r@ == encode_scalar(c as u32),
{
    let u = c as u32;
    proof {
        char_is_scalar(c);
    }
    let mut r: Vec<u8> = Vec::new();
    if u <= 0x7F {
        assert((u & 0x7F) as u8 == u as u8) by (bit_vector)
            requires
                u <= 0x7F,
        ;
        r.push(u as u8);
        proof {
            assert(r@ =~= encode_scalar(c as u32));
        }
    } else if u <= 0x7FF {
        assert((u >> 6) & 0x1F < 256 && u & 0x3F < 256) by (bit_vector);
        r.push(0xC0u8 | (((u >> 6) & 0x1F) as u8));
        r.push(0x80u8 | ((u & 0x3F) as u8));
        proof {
            assert(r@ =~= encode_scalar(c as u32));
        }
    } else if u <= 0xFFFF {
        assert((u >> 12) & 0x0F < 256 && (u >> 6) & 0x3F < 256 && u & 0x3F < 256)
            by (bit_vector);
        r.push(0xE0u8 | (((u >> 12) & 0x0F) as u8));
        r.push(0x80u8 | (((u >> 6) & 0x3F) as u8));
        r.push(0x80u8 | ((u & 0x3F) as u8));
        proof {
            assert(has_width_3_encoding(u));
            assert(r@ =~= encode_scalar(c as u32));
        }
    } else {
        assert((u >> 18) & 0x7 < 256 && (u >> 12) & 0x3F < 256 && (u >> 6) & 0x3F < 256 && u
            & 0x3F < 256) by (bit_vector);
        r.push(0xF0u8 | (((u >> 18) & 0x7) as u8));
        r.push(0x80u8 | (((u >> 12) & 0x3F) as u8));
        r.push(0x80u8 | (((u >> 6) & 0x3F) as u8));
        r.push(0x80u8 | ((u & 0x3F) as u8));
        proof {
            assert(has_width_4_encoding(u));
            assert(r@ =~= encode_scalar(c as u32));
        }
    }
    r
}

} // verus!
