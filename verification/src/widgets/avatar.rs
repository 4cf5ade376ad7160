//! The colour of a bot's text avatar.

use vstd::prelude::*;

use crate::text::{parse_unsigned, parse_unsigned_bytes, utf8, lemma_utf8_concat, lemma_utf8_ascii_char};

verus! {

broadcast use vstd::seq::group_seq_axioms;

/// The bytes with every leading `#` removed.
pub open spec fn strip_hashes(b: Seq<u8>) -> Seq<u8>
    decreases b.len(),
{
    if b.len() > 0 && b[0] == 35u8 {
        strip_hashes(b.skip(1))
    } else {
        b
    }
}

/// The colour that a hex string names: the text without its leading `#`s,
/// read as a hexadecimal `u32`; 0 when it is no such number.
pub open spec fn hex_color(s: Seq<char>) -> u32 {
    match parse_unsigned(strip_hashes(utf8(s)), 16, u32::MAX as nat) {
        Some(v) => v as u32,
        None => 0,
    }
}

/// The colour that a hex string such as `#FF8800` names, as a `u32`.
pub fn get_color_by_hex_str(color: &str) -> (r: u32)
    ensures
        r == hex_color(color@),
{
    let b = color.as_bytes();
    let n = b.len();
    let mut i: usize = 0;
    proof {
        assert(b@.skip(0) =~= b@);
    }
    while i < n && b[i] == 35u8
        invariant
            i <= n,
            n == b@.len(),
            b@ == utf8(color@),
            strip_hashes(b@.skip(i as int)) == strip_hashes(b@),
        decreases n - i,
    {
        proof {
            assert(b@.skip(i as int).skip(1) =~= b@.skip(i + 1));
        }
        i += 1;
    }
    proof {
        assert(strip_hashes(b@.skip(i as int)) == b@.skip(i as int));
    }
    match parse_unsigned_bytes(b, i, 16, 0xffff_ffffu64) {
        Some(v) => v as u32,
        None => 0,
    }
}


/// A `#` in front of a colour names the same colour.
pub proof fn lemma_hash_prefix(s: Seq<char>)
    ensures
        hex_color(seq!['#'] + s) == hex_color(s),
{
    lemma_utf8_concat(seq!['#'], s);
    lemma_utf8_ascii_char('#');
    let b = utf8(seq!['#'] + s);
    assert(b[0] == 35u8);
    assert(b.skip(1) =~= utf8(s));
}

} // verus!
