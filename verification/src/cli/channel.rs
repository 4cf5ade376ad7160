//! The channel that a picked line of the channel list names.

use uuid::Uuid;
use vstd::prelude::*;
use vstd::utf8::*;

use crate::ext::{parse_uuid, uuid_of};
use crate::text::{is_trimmed_of, is_white_space, str_trim, utf8};

verus! {

broadcast use vstd::seq::group_seq_axioms, vstd::utf8::encode_utf8_valid_utf8;

/// The index of the first `:` byte, or the length when there is none.
pub open spec fn first_colon(b: Seq<u8>) -> int
    decreases b.len(),
{
    if b.len() == 0 {
        0
    } else if first_colon(b.drop_last()) < b.len() - 1 {
        first_colon(b.drop_last())
    } else if b.last() == 58u8 {
        b.len() - 1
    } else {
        b.len() as int
    }
}

proof fn lemma_first_colon(b: Seq<u8>)
    ensures
        0 <= first_colon(b) <= b.len(),
        first_colon(b) < b.len() ==> b[first_colon(b)] == 58u8,
        forall|j: int| 0 <= j < first_colon(b) ==> b[j] != 58u8,
    decreases b.len(),
{
    if b.len() > 0 {
        lemma_first_colon(b.drop_last());
        assert forall|j: int| 0 <= j < first_colon(b) implies b[j] != 58u8 by {
            if j < b.len() - 1 {
                assert(b.drop_last()[j] == b[j]);
            }
        }
    }
}

/// The text of a line of the channel list before its first `:`.
pub open spec fn before_colon(select: Seq<char>) -> Seq<char> {
    decode_utf8(utf8(select).take(first_colon(utf8(select))))
}

/// The channel id that a line of the channel list, which reads `id: name`,
/// holds: the text before its first `:`, without surrounding white space.
pub open spec fn channel_id_text(select: Seq<char>) -> Seq<char> {
    choose|id: Seq<char>| is_trimmed_of(id, before_colon(select))
}

/// The channel id of a line of the channel list, which reads `id: name`:
/// the text before the first `:`, without its surrounding white space.
pub fn channel_id_of_selection(select: &str) -> (r: &str)
    ensures
        is_trimmed_of(r@, before_colon(select@)),
        r@ == channel_id_text(select@),
{
    let b = select.as_bytes();
    let ghost bs = utf8(select@);
    let n = b.len();
    let mut i: usize = 0;
    proof {
        lemma_first_colon(bs);
    }
    while i < n && b[i] != 58u8
        invariant
            b@ == bs,
            n == bs.len(),
            i <= first_colon(bs),
            forall|j: int| 0 <= j < first_colon(bs) ==> bs[j] != 58u8,
            first_colon(bs) < bs.len() ==> bs[first_colon(bs)] == 58u8,
            first_colon(bs) <= bs.len(),
        decreases n - i,
    {
        i += 1;
    }
    proof {
        assert(i == first_colon(bs));
        valid_utf8_split(bs, 0);
        if i < n {
            is_char_boundary_iff_not_is_continuation_byte(bs, i as int);
            assert(!is_continuation_byte(58u8)) by (bit_vector);
        } else {
            is_char_boundary_start_end_of_seq(bs);
        }
    }
    let (head, _) = select.split_at(i);
    proof {
        decode_utf8_encode_utf8(utf8(head@));
        encode_utf8_decode_utf8(head@);
        assert(utf8(head@) =~= bs.take(i as int));
    }
    let r = str_trim(head);
    proof {
        let c = channel_id_text(select@);
        assert(is_trimmed_of(r@, before_colon(select@)));
        assert(is_trimmed_of(c, before_colon(select@)));
        lemma_trim_unique(r@, c, before_colon(select@));
    }
    r
}

/// The channel that a line of the channel list names: the UUID read from
/// its channel id, or `None` when that text is no UUID.
pub fn selected_channel_id(select: &str) -> (r: Option<Uuid>)
    ensures
        r == uuid_of(channel_id_text(select@)),
{
    let id = channel_id_of_selection(select);
    parse_uuid(id)
}

/// A text has one trimmed form.
pub proof fn lemma_trim_unique(r1: Seq<char>, r2: Seq<char>, s: Seq<char>)
    requires
        is_trimmed_of(r1, s),
        is_trimmed_of(r2, s),
    ensures
        r1 == r2,
{
    let (a1, b1) = choose|a: int, b: int|
        0 <= a <= b <= s.len() && r1 == s.subrange(a, b) && (forall|i: int|
            0 <= i < a ==> is_white_space(#[trigger] s[i])) && (forall|i: int|
            b <= i < s.len() ==> is_white_space(#[trigger] s[i])) && (a < b ==> (
        !is_white_space(s[a]) && !is_white_space(s[b - 1])));
    let (a2, b2) = choose|a: int, b: int|
        0 <= a <= b <= s.len() && r2 == s.subrange(a, b) && (forall|i: int|
            0 <= i < a ==> is_white_space(#[trigger] s[i])) && (forall|i: int|
            b <= i < s.len() ==> is_white_space(#[trigger] s[i])) && (a < b ==> (
        !is_white_space(s[a]) && !is_white_space(s[b - 1])));
    if a1 < b1 && a2 < b2 {
        if a1 < a2 {
            assert(is_white_space(s[a1]));
        }
        if a2 < a1 {
            assert(is_white_space(s[a2]));
        }
        if b1 < b2 {
            assert(is_white_space(s[b2 - 1]));
        }
        if b2 < b1 {
            assert(is_white_space(s[b1 - 1]));
        }
    } else if a1 < b1 {
        assert(is_white_space(s[a1]) || a1 < a2 || a1 >= b2);
        if a2 <= a1 && a1 < b2 {
        }
        assert(is_white_space(s[a1]));
    } else if a2 < b2 {
        assert(is_white_space(s[a2]));
    }
    assert(r1 =~= r2);
}

} // verus!
