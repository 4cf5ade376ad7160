//! What the editor's keys, copying and typing do, stated over the displayed
//! bytes and the characters typed.

use vstd::prelude::*;
use vstd::utf8::*;

use crate::widgets::editor::{
    CaretPosition, CaretState, DeleteKey, key_range, char_start_before, char_end_after,
    select_start, select_end, copied_bytes, typable, typable_chars,
};

verus! {

broadcast use vstd::seq::group_seq_axioms;

/// With a selection made, backspace and delete both delete exactly the
/// selected bytes, whichever way the selection was made.
pub proof fn lemma_keys_delete_the_selection(d: Seq<u8>, c: CaretState, key: DeleteKey)
    requires
        key != DeleteKey::Other,
    ensures
        select_start(c) < select_end(c) ==> key_range(d, c, key) == (select_start(c), select_end(c)),
        match c {
            CaretState::Select(a, b) | CaretState::Selecting(a, b) => {
                &&& a.cluster < b.cluster ==> key_range(d, c, key) == (a.cluster as int, b.cluster as int)
                &&& a.cluster > b.cluster ==> key_range(d, c, key) == (b.cluster as int, a.cluster as int)
            },
            CaretState::Caret(_) => true,
        },
{
}

proof fn lemma_back(d: Seq<u8>, j: int, s: int)
    requires
        valid_utf8(d),
        0 <= j < s <= d.len(),
        forall|k: int| j < k < s ==> is_continuation_byte(#[trigger] d[k]),
    ensures
        0 <= char_start_before(d, j) <= j,
        is_char_boundary(d, char_start_before(d, j)),
        forall|k: int| char_start_before(d, j) < k < s ==> is_continuation_byte(#[trigger] d[k]),
    decreases j,
{
    is_char_boundary_start_end_of_seq(d);
    if j > 0 {
        if is_continuation_byte(d[j]) {
            lemma_back(d, j - 1, s);
        } else {
            is_char_boundary_iff_not_is_continuation_byte(d, j);
        }
    }
}

proof fn lemma_fwd(d: Seq<u8>, j: int, s: int)
    requires
        valid_utf8(d),
        0 <= s < j <= d.len(),
        forall|k: int| s < k < j ==> is_continuation_byte(#[trigger] d[k]),
    ensures
        j <= char_end_after(d, j) <= d.len(),
        is_char_boundary(d, char_end_after(d, j)),
        forall|k: int| s < k < char_end_after(d, j) ==> is_continuation_byte(#[trigger] d[k]),
    decreases d.len() - j,
{
    is_char_boundary_start_end_of_seq(d);
    if j < d.len() {
        if is_continuation_byte(d[j]) {
            lemma_fwd(d, j + 1, s);
        } else {
            is_char_boundary_iff_not_is_continuation_byte(d, j);
        }
    }
}

/// With nothing selected, backspace deletes the one character that ends at
/// the caret and delete the one character that starts there: the deleted
/// bytes run between two character boundaries of the displayed text with
/// none in between; at the start (for backspace) or the end (for delete)
/// nothing is deleted.
pub proof fn lemma_keys_delete_one_character(d: Seq<u8>, p: CaretPosition)
    requires
        valid_utf8(d),
        p.cluster <= d.len(),
        is_char_boundary(d, p.cluster as int),
    ensures
        ({
            let s = p.cluster as int;
            let c = CaretState::Caret(p);
            let (x, y) = key_range(d, c, DeleteKey::Backspace);
            &&& s > 0 ==> y == s && 0 <= x < s && is_char_boundary(d, x) && forall|j: int|
                x < j < s ==> !is_char_boundary(d, j)
            &&& s == 0 ==> x == 0 && y == 0
        }),
        ({
            let s = p.cluster as int;
            let c = CaretState::Caret(p);
            let (x, y) = key_range(d, c, DeleteKey::Delete);
            &&& s < d.len() ==> x == s && s < y <= d.len() && is_char_boundary(d, y) && forall|
                j: int,
            |
                s < j < y ==> !is_char_boundary(d, j)
            &&& s == d.len() ==> x == s && y == s
        }),
{
    let s = p.cluster as int;
    if s > 0 {
        lemma_back(d, s - 1, s);
        let x = char_start_before(d, s - 1);
        assert forall|j: int| x < j < s implies !is_char_boundary(d, j) by {
            is_char_boundary_iff_not_is_continuation_byte(d, j);
        }
    }
    if s < d.len() {
        lemma_fwd(d, s + 1, s);
        let y = char_end_after(d, s + 1);
        assert forall|j: int| s < j < y implies !is_char_boundary(d, j) by {
            is_char_boundary_iff_not_is_continuation_byte(d, j);
        }
    }
}

/// Copying hands back exactly the selected bytes of the displayed text,
/// whichever way the selection was made, and nothing without a selection.
pub proof fn lemma_copied(d: Seq<u8>, c: CaretState)
    ensures
        select_start(c) < select_end(c) ==> copied_bytes(d, c) == Some(
            d.subrange(select_start(c), select_end(c)),
        ),
        !(select_start(c) < select_end(c)) ==> copied_bytes(d, c) is None,
        match c {
            CaretState::Select(a, b) | CaretState::Selecting(a, b) => {
                &&& a.cluster < b.cluster ==> copied_bytes(d, c) == Some(
                    d.subrange(a.cluster as int, b.cluster as int),
                )
                &&& a.cluster > b.cluster ==> copied_bytes(d, c) == Some(
                    d.subrange(b.cluster as int, a.cluster as int),
                )
            },
            CaretState::Caret(_) => copied_bytes(d, c) is None,
        },
{
}

/// Typing keeps a character exactly when it is no control character (code
/// points 0 to 0x1f and 0x7f to 0x9f) or is ASCII white space (tab, line
/// feed, form feed, carriage return, space); every character from 0xa0 up,
/// whatever its plane, is kept.
pub proof fn lemma_typable(c: char)
    ensures
        typable(c) <==> ((c as u32) >= 0xa0 || (0x20 <= (c as u32) && (c as u32) < 0x7f) || c
            == '\t' || c == '\n' || c == '\x0C' || c == '\r'),
{
}

/// A typed text without control characters is inserted whole, and every
/// character that typing keeps comes from the typed text, in order.
pub proof fn lemma_typing_keeps(s: Seq<char>)
    ensures
        (forall|i: int|
            0 <= i < s.len() ==> (#[trigger] s[i] as u32) >= 0xa0 || (0x20 <= (s[i] as u32) && (
            s[i] as u32) < 0x7f)) ==> typable_chars(s) == s,
        typable_chars(s).len() <= s.len(),
    decreases s.len(),
{
    reveal(Seq::filter);
    if s.len() > 0 {
        let w = s.drop_last();
        assert forall|i: int| 0 <= i < w.len() implies w[i] == s[i] by {}
        lemma_typing_keeps(w);
        if forall|i: int|
            0 <= i < s.len() ==> (#[trigger] s[i] as u32) >= 0xa0 || (0x20 <= (s[i] as u32) && (
            s[i] as u32) < 0x7f) {
            assert forall|i: int|
                0 <= i < w.len() implies (#[trigger] w[i] as u32) >= 0xa0 || (0x20 <= (w[i] as u32)
                && (w[i] as u32) < 0x7f) by {
                assert(w[i] == s[i]);
            }
            lemma_typable(s.last());
            assert(s.last() == s[s.len() - 1]);
            assert(w.push(s.last()) =~= s);
        }
    }
}

} // verus!
