//! Audio fingerprints are stored as hex strings: each 32-bit word of the
//! raw fingerprint becomes eight lowercase hex digits, most significant
//! first, and the words are concatenated in order.

use vstd::prelude::*;
use crate::paths::push_char;

verus! {

/// The lowercase hex digit for a value below 16.
pub open spec fn spec_hex_digit(n: int) -> char {
    if n < 10 {
        ((48 + n) as u8) as char
    } else {
        ((87 + n) as u8) as char
    }
}

/// The nibble of `w` that is `k` hex digits above the least significant.
pub open spec fn spec_nibble(w: u32, k: int) -> int {
    ((w >> (4 * k) as u32) & 15) as int
}

/// The eight hex digits of one 32-bit word, most significant first.
pub open spec fn spec_hex32(w: u32) -> Seq<char> {
    Seq::new(8, |i: int| spec_hex_digit(spec_nibble(w, 7 - i)))
}

/// The hex rendering of a whole fingerprint: its words in order, eight
/// digits each.
pub open spec fn spec_fingerprint_hex(words: Seq<u32>) -> Seq<char>
    decreases words.len(),
{
    if words.len() == 0 {
        Seq::empty()
    } else {
        spec_fingerprint_hex(words.drop_last()) + spec_hex32(words.last())
    }
}

/// Append the eight hex digits of one word to `out`.
fn push_hex32(out: &mut String, w: u32)
    ensures
        final(out)@ == old(out)@ + spec_hex32(w),
{
    let mut k: usize = 0;
    while k < 8
        invariant
            k <= 8,
            out@ == old(out)@ + spec_hex32(w).take(k as int),
        decreases 8 - k,
    {
        let shift: u32 = (4 * (7 - k)) as u32;
        let nib: u32 = (w >> shift) & 15;
        proof {
            assert((w >> shift) & 15 < 16) by (bit_vector);
        }
        let d: u8 = if nib < 10 {
            48 + (nib as u8)
        } else {
            87 + (nib as u8)
        };
        push_char(out, d as char);
        k = k + 1;
        proof {
            assert(spec_hex32(w)[k - 1] == spec_hex_digit(spec_nibble(w, 7 - (k - 1))));
            assert(spec_hex32(w).take(k as int) =~= spec_hex32(w).take(k - 1).push(
                spec_hex32(w)[k - 1],
            ));
            assert(out@ =~= old(out)@ + spec_hex32(w).take(k as int));
        }
    }
    proof {
        assert(spec_hex32(w).take(8) =~= spec_hex32(w));
    }
}

/// Render a raw fingerprint as the hex string under which it is stored.
pub fn fingerprint_hex(words: &Vec<u32>) -> (r: String)
    ensures
        r@ == spec_fingerprint_hex(words@),
{
    let n = words.len();
    let mut out = String::new();
    let mut i: usize = 0;
    while i < n
        invariant
            i <= n,
            n == words@.len(),
            out@ == spec_fingerprint_hex(words@.take(i as int)),
        decreases n - i,
    {
        push_hex32(&mut out, words[i]);
        i = i + 1;
        proof {
            assert(words@.take(i as int).drop_last() =~= words@.take(i - 1));
            assert(words@.take(i as int).last() == words@[i - 1]);
        }
    }
    proof {
        assert(words@.take(n as int) =~= words@);
    }
    out
}

} // verus!
