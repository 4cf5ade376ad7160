//! What the editing operations do to the displayed text, the content and the
//! mentioned bots.

use vstd::prelude::*;
use vstd::utf8::*;

use crate::text::{utf8, lemma_utf8_concat, lemma_utf8_ascii_char};
use crate::widgets::edit_laws::{typing_point, lemma_typing_point, lemma_delete_undoes_insert};
use crate::widgets::editor::{
    MessageFragment, frags_view, text_cut_ok, delete_ok,
    FragmentView, display_bytes, content_bytes, bot_ids, frag_bytes, frag_len, frag_start,
    position_from, position_of, merge_pair, insert_str_result, insert_bot_result, delete_result,
    del_keep, del_cursor, del_end, del_one, overlaps, strictly_inside, bot_display_bytes,
    lemma_display_concat, lemma_display_one, lemma_display_take, lemma_display_prefix,
    lemma_merge_pair_keeps, lemma_position_bounds, validate_from, validated, MoveDirection,
    CaretState, CaretPosition, caret_end, checked_caret, checked_pair, moved_caret, moved_to,
    insert_str_ok,
};

verus! {

broadcast use vstd::seq::group_seq_axioms, vstd::utf8::encode_utf8_valid_utf8;

/// The displayed bytes around fragment `i`: those before it, its own, and
/// those after it.
pub proof fn lemma_display_split(v: Seq<FragmentView>, i: int)
    requires
        0 <= i < v.len(),
    ensures
        display_bytes(v) == display_bytes(v.take(i)) + frag_bytes(v[i]) + display_bytes(
            v.skip(i + 1),
        ),
        content_bytes(v) == content_bytes(v.take(i)) + content_bytes(seq![v[i]]) + content_bytes(
            v.skip(i + 1),
        ),
        bot_ids(v) == bot_ids(v.take(i)) + bot_ids(seq![v[i]]) + bot_ids(v.skip(i + 1)),
{
    assert(v =~= v.take(i) + seq![v[i]] + v.skip(i + 1));
    lemma_display_concat(v.take(i), seq![v[i]]);
    lemma_display_concat(v.take(i) + seq![v[i]], v.skip(i + 1));
    lemma_display_one(v[i]);
}

/// Where a cursor lands: the start of its fragment plus its offset is the
/// cursor, or the end of the displayed bytes for a cursor past the end.
pub proof fn lemma_position_start(v: Seq<FragmentView>, j: int, c: int)
    requires
        v.len() > 0,
        0 <= j <= v.len(),
        0 <= c,
    ensures
        frag_start(v, position_from(v, j, c).0) + position_from(v, j, c).1 == if frag_start(v, j)
            + c <= display_bytes(v).len() {
            frag_start(v, j) + c
        } else {
            display_bytes(v).len() as int
        },
    decreases v.len() - j,
{
    lemma_display_prefix(v, j);
    if j == v.len() {
        assert(v.take(j) =~= v);
        lemma_display_take(v, j - 1);
        assert(v.last() == v[j - 1]);
        assert(v.take(j - 1 + 1) =~= v);
    } else {
        lemma_display_take(v, j);
        lemma_display_prefix(v, j + 1);
        if frag_len(v[j]) < c {
            lemma_position_start(v, j + 1, c - frag_len(v[j]));
        }
    }
}

/// The byte where an insertion at `cursor` puts its text: the cursor in a
/// text, or the end of the mention that the cursor falls in.
pub open spec fn insert_point(v: Seq<FragmentView>, cursor: int) -> int {
    let (i, off) = position_of(v, cursor);
    match v[i] {
        FragmentView::Bot { .. } => frag_start(v, i) + frag_len(v[i]),
        FragmentView::Text(_) => frag_start(v, i) + off,
    }
}

proof fn lemma_insert_point_bounds(v: Seq<FragmentView>, cursor: int)
    requires
        v.len() > 0,
        0 <= cursor,
    ensures
        0 <= insert_point(v, cursor) <= display_bytes(v).len(),
        position_of(v, cursor).0 < v.len(),
        cursor <= display_bytes(v).len() && v[position_of(v, cursor).0] is Text ==> insert_point(
            v,
            cursor,
        ) == cursor,
{
    let (i, off) = position_of(v, cursor);
    lemma_position_bounds(v, 0, cursor);
    lemma_position_start(v, 0, cursor);
    assert(v.take(0) =~= Seq::<FragmentView>::empty());
    lemma_display_take(v, i);
    lemma_display_prefix(v, i + 1);
}

/// Inserting text puts its bytes into the displayed text at the insertion
/// point, and leaves the mentioned bots as they were; a cursor that lies in
/// a text before the end comes back right after the inserted text.
#[verifier::spinoff_prover]
#[verifier::rlimit(30)]
pub proof fn lemma_insert_str_display(v: Seq<FragmentView>, cursor: int, t: Seq<u8>)
    requires
        v.len() > 0,
        0 <= cursor,
    ensures
        ({
            let d = display_bytes(v);
            let p = insert_point(v, cursor);
            &&& 0 <= p <= d.len()
            &&& display_bytes(insert_str_result(v, cursor, t).0) == d.take(p) + t + d.skip(p)
            &&& bot_ids(insert_str_result(v, cursor, t).0) == bot_ids(v)
            &&& cursor <= d.len() ==> insert_str_result(v, cursor, t).1 == p + t.len()
        }),
{
    let d = display_bytes(v);
    let (i, off) = position_of(v, cursor);
    lemma_insert_point_bounds(v, cursor);
    lemma_position_bounds(v, 0, cursor);
    lemma_position_start(v, 0, cursor);
    assert(v.take(0) =~= Seq::<FragmentView>::empty());
    lemma_display_split(v, i);
    let pre = v.take(i);
    let post = v.skip(i + 1);
    match v[i] {
        FragmentView::Text(b) => {
            let f = FragmentView::Text(b.take(off) + t + b.skip(off));
            let w = v.update(i, f);
            assert(w =~= pre + seq![f] + post);
            lemma_display_concat(pre, seq![f]);
            lemma_display_concat(pre + seq![f], post);
            lemma_display_one(f);
            lemma_display_one(v[i]);
            lemma_merge_pair_keeps(w, i);
            let dp = display_bytes(pre);
            assert(d.take(dp.len() + off) =~= dp + b.take(off));
            assert(d.skip(dp.len() + off) =~= b.skip(off) + display_bytes(post));
            assert(display_bytes(w) =~= d.take(dp.len() + off) + t + d.skip(dp.len() + off));
        },
        FragmentView::Bot { .. } => {
            let f = FragmentView::Text(t);
            let w = v.insert(i + 1, f);
            assert(w =~= pre + seq![v[i]] + seq![f] + post);
            lemma_display_concat(pre, seq![v[i]]);
            lemma_display_concat(pre + seq![v[i]], seq![f]);
            lemma_display_concat(pre + seq![v[i]] + seq![f], post);
            lemma_display_one(f);
            lemma_display_one(v[i]);
            lemma_merge_pair_keeps(w, i + 1);
            let dp = display_bytes(pre) + frag_bytes(v[i]);
            assert(d.take(dp.len() as int) =~= dp);
            assert(d.skip(dp.len() as int) =~= display_bytes(post));
            assert(display_bytes(w) =~= d.take(dp.len() as int) + t + d.skip(dp.len() as int));
        },
    }
}

/// Mentioning a bot puts `@ name ` into the displayed text at the insertion
/// point, and leaves the content without mentions as it was.
#[verifier::spinoff_prover]
#[verifier::rlimit(30)]
pub proof fn lemma_insert_bot_display(
    v: Seq<FragmentView>,
    cursor: int,
    bot_id: Seq<char>,
    name: Seq<char>,
)
    requires
        v.len() > 0,
        0 <= cursor,
    ensures
        ({
            let d = display_bytes(v);
            let p = insert_point(v, cursor);
            let r = insert_bot_result(v, cursor, bot_id, name);
            &&& 0 <= p <= d.len()
            &&& display_bytes(r.0) == d.take(p) + bot_display_bytes(name) + d.skip(p)
            &&& content_bytes(r.0) == content_bytes(v)
            &&& cursor <= d.len() ==> r.1 == p + bot_display_bytes(name).len()
        }),
{
    let d = display_bytes(v);
    let (i, off) = position_of(v, cursor);
    lemma_insert_point_bounds(v, cursor);
    lemma_position_bounds(v, 0, cursor);
    lemma_position_start(v, 0, cursor);
    assert(v.take(0) =~= Seq::<FragmentView>::empty());
    lemma_display_split(v, i);
    let pre = v.take(i);
    let post = v.skip(i + 1);
    let bot = FragmentView::Bot { bot_id, name };
    lemma_display_one(bot);
    lemma_display_one(v[i]);
    let dp = display_bytes(pre);
    match v[i] {
        FragmentView::Text(b) => {
            let f1 = FragmentView::Text(b.take(off));
            let f2 = FragmentView::Text(b.skip(off));
            lemma_display_one(f1);
            lemma_display_one(f2);
            let mid = if off < b.len() {
                seq![f1, bot, f2]
            } else {
                seq![f1, bot]
            };
            let w = insert_bot_result(v, cursor, bot_id, name).0;
            if off < b.len() {
                assert(w =~= pre + mid + post);
                assert(mid =~= seq![f1] + seq![bot] + seq![f2]);
                lemma_display_concat(seq![f1], seq![bot]);
                lemma_display_concat(seq![f1] + seq![bot], seq![f2]);
            } else {
                assert(w =~= pre + mid + post);
                assert(mid =~= seq![f1] + seq![bot]);
                lemma_display_concat(seq![f1], seq![bot]);
                assert(b.skip(off) =~= Seq::<u8>::empty());
            }
            lemma_display_concat(pre, mid);
            lemma_display_concat(pre + mid, post);
            assert(b =~= b.take(off) + b.skip(off));
            assert(d.take(dp.len() + off) =~= dp + b.take(off));
            assert(d.skip(dp.len() + off) =~= b.skip(off) + display_bytes(post));
            assert(display_bytes(w) =~= d.take(dp.len() + off) + bot_display_bytes(name) + d.skip(
                dp.len() + off,
            ));
            assert(content_bytes(w) =~= content_bytes(v));
        },
        FragmentView::Bot { .. } => {
            let w = v.insert(i + 1, bot);
            assert(w =~= pre + seq![v[i]] + seq![bot] + post);
            lemma_display_concat(pre, seq![v[i]]);
            lemma_display_concat(pre + seq![v[i]], seq![bot]);
            lemma_display_concat(pre + seq![v[i]] + seq![bot], post);
            let dq = dp + frag_bytes(v[i]);
            assert(d.take(dq.len() as int) =~= dq);
            assert(d.skip(dq.len() as int) =~= display_bytes(post));
            assert(display_bytes(w) =~= d.take(dq.len() as int) + bot_display_bytes(name) + d.skip(
                dq.len() as int,
            ));
            assert(content_bytes(w) =~= content_bytes(v));
        },
    }
}


/// The ids of the mentions that a deletion of `s..e` keeps: those of the
/// mentions that do not meet the selection, in order.
pub open spec fn surviving_bots(v: Seq<FragmentView>, s: int, e: int) -> Seq<Seq<char>>
    decreases v.len(),
{
    if v.len() == 0 {
        seq![]
    } else {
        let rs = display_bytes(v.drop_last()).len() as int;
        surviving_bots(v.drop_last(), s, e) + match v.last() {
            FragmentView::Bot { bot_id, name } => if overlaps(
                rs,
                rs + frag_len(v.last()),
                s,
                e,
            ) {
                Seq::<Seq<char>>::empty()
            } else {
                seq![bot_id]
            },
            FragmentView::Text(_) => Seq::<Seq<char>>::empty(),
        }
    }
}

proof fn lemma_del_keep_bots(v: Seq<FragmentView>, s: int, e: int)
    ensures
        bot_ids(del_keep(v, s, e)) == surviving_bots(v, s, e),
    decreases v.len(),
{
    if v.len() == 0 {
        assert(del_keep(v, s, e) =~= Seq::<FragmentView>::empty());
    } else {
        let w = v.drop_last();
        let rs = display_bytes(w).len() as int;
        lemma_del_keep_bots(w, s, e);
        let k = del_one(v.last(), rs, s, e);
        lemma_display_concat(del_keep(w, s, e), k);
        if k.len() == 1 {
            lemma_display_one(k[0]);
            assert(k == seq![k[0]]);
        } else {
            assert(k =~= Seq::<FragmentView>::empty());
            assert(bot_ids(k) =~= Seq::<Seq<char>>::empty());
        }
        assert(bot_ids(del_keep(v, s, e)) =~= surviving_bots(v, s, e));
    }
}

/// A deletion keeps, in order, the mentions that do not meet the selection,
/// and drops those that do.
pub proof fn lemma_delete_bots(v: Seq<FragmentView>, s: int, e: int)
    requires
        v.len() > 0,
        s < e,
    ensures
        bot_ids(delete_result(v, s, e).0) == surviving_bots(v, s, e),
{
    lemma_del_keep_bots(v, s, e);
    let kept = del_keep(v, s, e);
    let v1 = if kept.len() == 0 {
        seq![FragmentView::Text(Seq::<u8>::empty())]
    } else {
        kept
    };
    if kept.len() == 0 {
        lemma_display_one(FragmentView::Text(Seq::<u8>::empty()));
        assert(bot_ids(kept) =~= Seq::<Seq<char>>::empty());
    }
    lemma_merge_pair_keeps(v1, position_of(v1, del_cursor(v, s, e)).0);
}

/// `x`, but no more than `n`.
pub open spec fn clamp(x: int, n: int) -> int {
    if x < n {
        x
    } else {
        n
    }
}

/// The cursor after a deletion is no later than the start of the selection,
/// and earlier only where the start falls inside the message; the removed
/// bytes end no earlier than the selection, and later only inside the message.
proof fn lemma_del_bounds(v: Seq<FragmentView>, s: int, e: int)
    requires
        0 <= s < e,
    ensures
        0 <= del_cursor(v, s, e) <= s,
        e <= del_end(v, s, e),
        del_cursor(v, s, e) < s ==> s < display_bytes(v).len(),
        del_end(v, s, e) > e ==> del_end(v, s, e) <= display_bytes(v).len(),
    decreases v.len(),
{
    if v.len() > 0 {
        lemma_del_bounds(v.drop_last(), s, e);
    }
}

/// What a deletion keeps displays the displayed bytes before its cursor and
/// those after the end of the removed bytes.
#[verifier::spinoff_prover]
#[verifier::rlimit(30)]
proof fn lemma_del_keep_display(v: Seq<FragmentView>, s: int, e: int)
    requires
        0 <= s < e,
    ensures
        ({
            let d = display_bytes(v);
            let n = d.len() as int;
            display_bytes(del_keep(v, s, e)) == d.take(clamp(del_cursor(v, s, e), n)) + d.skip(
                clamp(del_end(v, s, e), n),
            )
        }),
    decreases v.len(),
{
    let d = display_bytes(v);
    if v.len() == 0 {
        assert(del_keep(v, s, e) =~= Seq::<FragmentView>::empty());
        assert(d.take(0) + d.skip(0) =~= d);
    } else {
        let w = v.drop_last();
        let f = v.last();
        lemma_del_keep_display(w, s, e);
        lemma_del_bounds(w, s, e);
        let dw = display_bytes(w);
        let rs = dw.len() as int;
        let fb = frag_bytes(f);
        let re = rs + fb.len();
        assert(d == dw + fb);
        let k = del_one(f, rs, s, e);
        let kw = del_keep(w, s, e);
        assert(del_keep(v, s, e) == kw + k);
        lemma_display_concat(kw, k);
        let c1 = del_cursor(w, s, e);
        let h1 = del_end(w, s, e);
        let c = del_cursor(v, s, e);
        let h = del_end(v, s, e);
        let e0 = Seq::<FragmentView>::empty();
        assert(display_bytes(e0) =~= Seq::<u8>::empty());
        if overlaps(rs, re, s, e) {
            assert(h1 >= rs);
            assert(dw.skip(clamp(h1, rs)) =~= Seq::<u8>::empty());
            if strictly_inside(rs, re, s, e) {
                assert(k == e0);
                assert(d.take(clamp(c, re)) =~= dw.take(clamp(c1, rs)));
                assert(d.skip(clamp(h, re)) =~= Seq::<u8>::empty());
                assert(display_bytes(del_keep(v, s, e)) =~= d.take(clamp(c, re)) + d.skip(
                    clamp(h, re),
                ));
            } else {
                match f {
                    FragmentView::Text(b) => {
                        let lo = if s > rs {
                            s - rs
                        } else {
                            0
                        };
                        let hi = if e < re {
                            e - rs
                        } else {
                            re - rs
                        };
                        let g = FragmentView::Text(b.take(lo) + b.skip(hi));
                        assert(k == seq![g]);
                        lemma_display_one(g);
                        assert(h == e);
                        if s > rs {
                            assert(c == s);
                            assert(d.take(clamp(c, re)) =~= dw + b.take(lo));
                        } else {
                            assert(d.take(clamp(c, re)) =~= dw.take(clamp(c1, rs)));
                        }
                        assert(d.skip(clamp(h, re)) =~= b.skip(hi));
                        assert(display_bytes(del_keep(v, s, e)) =~= d.take(clamp(c, re)) + d.skip(
                            clamp(h, re),
                        ));
                    },
                    FragmentView::Bot { .. } => {
                        assert(k == e0);
                        assert(h >= re);
                        assert(c <= rs);
                        assert(d.take(clamp(c, re)) =~= dw.take(clamp(c1, rs)));
                        assert(d.skip(clamp(h, re)) =~= Seq::<u8>::empty());
                        assert(display_bytes(del_keep(v, s, e)) =~= d.take(clamp(c, re)) + d.skip(
                            clamp(h, re),
                        ));
                    },
                }
            }
        } else {
            assert(k == seq![f]);
            lemma_display_one(f);
            assert(c == c1);
            assert(h == h1);
            if s >= re {
                assert(c1 == s);
                assert(d.take(clamp(c, re)) =~= d);
                assert(d.skip(clamp(h, re)) =~= Seq::<u8>::empty());
                assert(dw.take(clamp(c1, rs)) =~= dw);
                assert(dw.skip(clamp(h1, rs)) =~= Seq::<u8>::empty());
            } else {
                assert(h1 <= rs);
                assert(c1 <= rs);
                assert(d.take(clamp(c, re)) =~= dw.take(clamp(c1, rs)));
                assert(d.skip(clamp(h, re)) =~= dw.skip(clamp(h1, rs)) + fb);
            }
            assert(display_bytes(del_keep(v, s, e)) =~= d.take(clamp(c, re)) + d.skip(
                clamp(h, re),
            ));
        }
    }
}

/// Deleting a non-empty selection removes from the displayed text exactly
/// the bytes from the returned cursor to the end of the removed region: the
/// selection, widened to whole mentions where it cuts into one. The cursor
/// is no later than the selection's start, and earlier only where that start
/// falls inside the message.
pub proof fn lemma_delete_display(v: Seq<FragmentView>, s: int, e: int)
    requires
        v.len() > 0,
        0 <= s < e,
    ensures
        ({
            let d = display_bytes(v);
            let n = d.len() as int;
            let (w, c) = delete_result(v, s, e);
            let h = del_end(v, s, e);
            &&& 0 <= c <= s
            &&& e <= h
            &&& c < s ==> s < n
            &&& display_bytes(w) == d.take(clamp(c, n)) + d.skip(clamp(h, n))
        }),
{
    lemma_del_bounds(v, s, e);
    lemma_del_keep_display(v, s, e);
    let kept = del_keep(v, s, e);
    let v1 = if kept.len() == 0 {
        seq![FragmentView::Text(Seq::<u8>::empty())]
    } else {
        kept
    };
    if kept.len() == 0 {
        lemma_display_one(FragmentView::Text(Seq::<u8>::empty()));
        assert(display_bytes(kept) =~= Seq::<u8>::empty());
    }
    let c = del_cursor(v, s, e);
    lemma_merge_pair_keeps(v1, position_of(v1, c).0);
}


/// Byte `p` lies strictly inside mention `i`: after its first byte and
/// before its end.
pub open spec fn in_mention(v: Seq<FragmentView>, i: int, p: int) -> bool {
    &&& 0 <= i < v.len()
    &&& v[i] is Bot
    &&& frag_start(v, i) < p < frag_start(v, i) + frag_len(v[i])
}

/// Byte `p` lies strictly inside some mention.
pub open spec fn inside_mention(v: Seq<FragmentView>, p: int) -> bool {
    exists|i: int| #[trigger] in_mention(v, i, p)
}

/// Each fragment starts where the one before it ends, and the last one ends
/// where the displayed text ends.
pub proof fn lemma_frag_next(v: Seq<FragmentView>, i: int)
    requires
        0 <= i < v.len(),
    ensures
        frag_start(v, i + 1) == frag_start(v, i) + frag_len(v[i]),
        frag_start(v, v.len() as int) == display_bytes(v).len(),
{
    lemma_display_take(v, i);
    assert(v.take(v.len() as int) =~= v);
}

/// Fragments start in order.
pub proof fn lemma_frag_start_mono(v: Seq<FragmentView>, j: int, k: int)
    requires
        0 <= j <= k <= v.len(),
    ensures
        frag_start(v, j) <= frag_start(v, k),
    decreases k - j,
{
    if j < k {
        lemma_frag_next(v, j);
        lemma_frag_start_mono(v, j + 1, k);
    }
}

/// A byte in fragment `i` that is not strictly inside it, unless it is a
/// text, is strictly inside no mention.
proof fn lemma_not_inside(v: Seq<FragmentView>, i: int, p: int)
    requires
        0 <= i < v.len(),
        frag_start(v, i) <= p <= frag_start(v, i) + frag_len(v[i]),
        v[i] is Text || p == frag_start(v, i) || p == frag_start(v, i) + frag_len(v[i]),
    ensures
        !inside_mention(v, p),
{
    assert forall|j: int| !#[trigger] in_mention(v, j, p) by {
        if 0 <= j < v.len() {
            if j < i {
                lemma_frag_next(v, j);
                lemma_frag_start_mono(v, j + 1, i);
            } else if j > i {
                lemma_frag_next(v, i);
                lemma_frag_start_mono(v, i + 1, j);
            }
        }
    }
}

/// What validating from fragment `i` gives: a byte of the displayed text
/// at or after fragment `i`, strictly inside no mention; the cursor itself
/// when it already is such a byte; and for a cursor strictly inside mention
/// `k`, the start or the end of that mention, as the direction says.
proof fn lemma_validate_from(v: Seq<FragmentView>, i: int, c: int, dir: MoveDirection, k: int)
    requires
        0 <= i <= v.len(),
        frag_start(v, i) <= c,
    ensures
        ({
            let r = validate_from(v, i, frag_start(v, i), c, dir);
            &&& frag_start(v, i) <= r <= display_bytes(v).len()
            &&& !inside_mention(v, r)
            &&& c <= display_bytes(v).len() && !inside_mention(v, c) ==> r == c
            &&& c > display_bytes(v).len() ==> r == display_bytes(v).len()
            &&& i <= k && in_mention(v, k, c) ==> r == match dir {
                MoveDirection::Left => frag_start(v, k),
                MoveDirection::Right => frag_start(v, k) + frag_len(v[k]),
            }
        }),
    decreases v.len() - i,
{
    let n = v.len() as int;
    let acc = frag_start(v, i);
    if n == 0 {
        assert(v.take(0) =~= v);
        assert forall|j: int| !#[trigger] in_mention(v, j, acc) by {}
    } else if i == n {
        lemma_frag_next(v, n - 1);
        lemma_not_inside(v, n - 1, acc);
    } else {
        lemma_frag_next(v, i);
        lemma_frag_start_mono(v, i + 1, n);
        let end = acc + frag_len(v[i]);
        if acc <= c < end {
            lemma_not_inside(v, i, validate_from(v, i, acc, c, dir));
            if v[i] is Bot && c != acc {
                assert(in_mention(v, i, c));
            }
            if i < k && in_mention(v, k, c) {
                lemma_frag_next(v, i);
                lemma_frag_start_mono(v, i + 1, k);
            }
        } else {
            lemma_validate_from(v, i + 1, c, dir, k);
            if i == k && in_mention(v, k, c) {
                assert(false);
            }
        }
    }
}

/// A validated cursor is a byte of the displayed text that lies strictly
/// inside no mention. A cursor that already is such a byte stays where it
/// is, so validating twice gives what validating once gives; a cursor past
/// the end goes to the end; a cursor strictly inside a mention goes to its
/// start, moving left, or to its end, moving right.
pub proof fn lemma_validated(v: Seq<FragmentView>, c: int, dir: MoveDirection, again: MoveDirection, k: int)
    requires
        0 <= c,
    ensures
        0 <= validated(v, c, dir) <= display_bytes(v).len(),
        !inside_mention(v, validated(v, c, dir)),
        c <= display_bytes(v).len() && !inside_mention(v, c) ==> validated(v, c, dir) == c,
        c > display_bytes(v).len() ==> validated(v, c, dir) == display_bytes(v).len(),
        validated(v, validated(v, c, dir), again) == validated(v, c, dir),
        in_mention(v, k, c) ==> validated(v, c, dir) == match dir {
            MoveDirection::Left => frag_start(v, k),
            MoveDirection::Right => frag_start(v, k) + frag_len(v[k]),
        },
{
    assert(v.take(0) =~= Seq::<FragmentView>::empty());
    lemma_validate_from(v, 0, c, dir, k);
    let r = validated(v, c, dir);
    lemma_validate_from(v, 0, r, again, k);
}


/// Every text of the message is valid UTF-8, as the text of a `String` is.
pub open spec fn texts_valid(v: Seq<FragmentView>) -> bool {
    forall|i: int|
        0 <= i < v.len() ==> (#[trigger] v[i] matches FragmentView::Text(b) ==> valid_utf8(b))
}

/// The texts of fragments held in memory are valid UTF-8.
pub proof fn lemma_view_texts_valid(fs: Seq<MessageFragment>)
    ensures
        texts_valid(frags_view(fs)),
{
    assert forall|i: int| 0 <= i < frags_view(fs).len() implies (#[trigger] frags_view(fs)[i] matches FragmentView::Text(b) ==> valid_utf8(b)) by {
        match fs[i] {
            MessageFragment::Text(t) => {
                assert(frags_view(fs)[i] == FragmentView::Text(utf8(t@)));
            },
            MessageFragment::Bot { .. } => {},
        }
    }
}

/// The displayed bytes of a fragment are valid UTF-8.
proof fn lemma_frag_valid(f: FragmentView)
    requires
        f matches FragmentView::Text(b) ==> valid_utf8(b),
    ensures
        valid_utf8(frag_bytes(f)),
{
    if let FragmentView::Bot { name, .. } = f {
        let at = seq!['@', ' '];
        lemma_utf8_concat(seq!['@'], seq![' ']);
        lemma_utf8_ascii_char('@');
        lemma_utf8_ascii_char(' ');
        assert(at =~= seq!['@'] + seq![' ']);
        assert(utf8(at) =~= seq![64u8, 32u8]);
        valid_utf8_concat(utf8(at), utf8(name));
        valid_utf8_concat(utf8(at) + utf8(name), utf8(seq![' ']));
        assert(bot_display_bytes(name) =~= utf8(at) + utf8(name) + utf8(seq![' ']));
    }
}

/// The displayed bytes of a message whose texts are valid UTF-8 are valid
/// UTF-8.
pub proof fn lemma_display_valid(v: Seq<FragmentView>)
    requires
        texts_valid(v),
    ensures
        valid_utf8(display_bytes(v)),
    decreases v.len(),
{
    if v.len() == 0 {
        assert(display_bytes(v) =~= Seq::<u8>::empty());
        assert(valid_utf8(Seq::<u8>::empty()));
    } else {
        let w = v.drop_last();
        assert forall|i: int| 0 <= i < w.len() implies (#[trigger] w[i] matches FragmentView::Text(b) ==> valid_utf8(b)) by {
            assert(w[i] == v[i]);
        }
        lemma_display_valid(w);
        assert(v.last() == v[v.len() - 1]);
        lemma_frag_valid(v.last());
        valid_utf8_concat(display_bytes(w), frag_bytes(v.last()));
    }
}

/// A character boundary of the displayed text that falls in a text fragment
/// is a character boundary of that text.
pub proof fn lemma_boundary_in_text(v: Seq<FragmentView>, i: int, p: int)
    requires
        texts_valid(v),
        0 <= i < v.len(),
        v[i] is Text,
        frag_start(v, i) <= p <= frag_start(v, i) + frag_len(v[i]),
        is_char_boundary(display_bytes(v), p),
    ensures
        v[i] matches FragmentView::Text(b) && is_char_boundary(b, p - frag_start(v, i)),
{
    let b = v[i]->Text_0;
    let rs = frag_start(v, i);
    assert(valid_utf8(b));
    is_char_boundary_start_end_of_seq(b);
    if rs < p < rs + b.len() {
        let d = display_bytes(v);
        lemma_display_valid(v);
        lemma_display_split(v, i);
        lemma_display_take(v, i);
        assert(d[p] == b[p - rs]);
        is_char_boundary_iff_not_is_continuation_byte(d, p);
        is_char_boundary_iff_not_is_continuation_byte(b, p - rs);
    }
}

/// A selection whose ends are character boundaries of the displayed text,
/// where they fall in it, cuts every text on character boundaries.
pub proof fn lemma_delete_ok(v: Seq<FragmentView>, s: int, e: int)
    requires
        texts_valid(v),
        v.len() > 0,
        display_bytes(v).len() <= usize::MAX,
        0 <= s,
        s < display_bytes(v).len() ==> is_char_boundary(display_bytes(v), s),
        e < display_bytes(v).len() ==> is_char_boundary(display_bytes(v), e),
    ensures
        delete_ok(v, s, e),
{
    let n = display_bytes(v).len();
    assert forall|i: int| 0 <= i < v.len() implies #[trigger] text_cut_ok(v[i], frag_start(v, i), s, e) by {
        if let FragmentView::Text(b) = v[i] {
            let rs = frag_start(v, i);
            let re = rs + b.len();
            lemma_frag_next(v, i);
            lemma_frag_start_mono(v, i + 1, v.len() as int);
            lemma_frag_start_mono(v, 0, i);
            assert(v.take(0) =~= Seq::<FragmentView>::empty());
            assert(valid_utf8(b));
            is_char_boundary_start_end_of_seq(b);
            if overlaps(rs, re, s, e) && !strictly_inside(rs, re, s, e) {
                if s > rs {
                    lemma_boundary_in_text(v, i, s);
                }
                if e < re {
                    lemma_boundary_in_text(v, i, e);
                }
            }
        }
    }
}


/// A position moved to a validated byte rests on that byte.
proof fn lemma_moved_to(v: Seq<FragmentView>, p: CaretPosition, dir: MoveDirection)
    requires
        display_bytes(v).len() <= usize::MAX,
    ensures
        moved_to(p, validated(v, p.cluster as int, dir)).cluster == validated(v, p.cluster as int, dir),
        !inside_mention(v, validated(v, p.cluster as int, dir)),
{
    lemma_validated(v, p.cluster as int, dir, dir, 0);
}

/// The lower end of a selection kept out of mentions toward the left, or the
/// upper end toward the right, differs from the other end when it starts
/// strictly inside a mention; so the start of a checked selection, which
/// moves only when its checked place differs from the end, lies strictly
/// inside no mention.
proof fn lemma_checked_start(v: Seq<FragmentView>, a: CaretPosition, b: CaretPosition)
    requires
        display_bytes(v).len() <= usize::MAX,
    ensures
        !inside_mention(v, checked_pair(v, a, b).0.cluster as int),
{
    let reverse = a.cluster > b.cluster;
    let d0 = if reverse {
        MoveDirection::Right
    } else {
        MoveDirection::Left
    };
    let c0 = validated(v, a.cluster as int, d0);
    lemma_validated(v, a.cluster as int, d0, d0, 0);
    if c0 == b.cluster && inside_mention(v, a.cluster as int) {
        let k = choose|k: int| in_mention(v, k, a.cluster as int);
        lemma_validated(v, a.cluster as int, d0, d0, k);
    }
}

/// After a check, no end of the caret lies strictly inside a mention: a
/// caret, and each end of a selection, is moved out to a mention's edge.
pub proof fn lemma_checked_caret(v: Seq<FragmentView>, c: CaretState)
    requires
        display_bytes(v).len() <= usize::MAX,
    ensures
        match checked_caret(v, c) {
            CaretState::Caret(p) => !inside_mention(v, p.cluster as int),
            CaretState::Select(a, b) => !inside_mention(v, a.cluster as int) && !inside_mention(
                v,
                b.cluster as int,
            ),
            CaretState::Selecting(a, b) => !inside_mention(v, a.cluster as int) && !inside_mention(
                v,
                b.cluster as int,
            ),
        },
{
    match c {
        CaretState::Caret(p) => lemma_moved_to(v, p, MoveDirection::Right),
        CaretState::Select(a, b) | CaretState::Selecting(a, b) => {
            lemma_checked_start(v, a, b);
            let d1 = if a.cluster > b.cluster {
                MoveDirection::Left
            } else {
                MoveDirection::Right
            };
            lemma_moved_to(v, b, d1);
        },
    }
}

/// After a move, the moving end of the caret lies strictly inside no
/// mention; the other end of a selection stays where it was.
pub proof fn lemma_moved_caret(v: Seq<FragmentView>, c: CaretState, dir: MoveDirection)
    requires
        display_bytes(v).len() <= usize::MAX,
    ensures
        !inside_mention(v, caret_end(moved_caret(v, c, dir)).cluster as int),
        match (c, moved_caret(v, c, dir)) {
            (CaretState::Select(a, _), CaretState::Select(a2, _)) => a2 == a,
            (CaretState::Selecting(a, _), CaretState::Selecting(a2, _)) => a2 == a,
            (CaretState::Caret(_), CaretState::Caret(_)) => true,
            _ => false,
        },
{
    lemma_moved_to(v, caret_end(c), dir);
}


/// A checked selection grows to whole mentions: an end strictly inside a
/// mention moves to the mention's edge away from the other end.
pub proof fn lemma_checked_selection_grows(
    v: Seq<FragmentView>,
    a: CaretPosition,
    b: CaretPosition,
    k: int,
)
    requires
        display_bytes(v).len() <= usize::MAX,
    ensures
        in_mention(v, k, a.cluster as int) ==> checked_pair(v, a, b).0.cluster == if a.cluster
            <= b.cluster {
            frag_start(v, k)
        } else {
            frag_start(v, k) + frag_len(v[k])
        },
        in_mention(v, k, b.cluster as int) ==> checked_pair(v, a, b).1.cluster == if a.cluster
            > b.cluster {
            frag_start(v, k)
        } else {
            frag_start(v, k) + frag_len(v[k])
        },
{
    let reverse = a.cluster > b.cluster;
    let (d0, d1) = if reverse {
        (MoveDirection::Right, MoveDirection::Left)
    } else {
        (MoveDirection::Left, MoveDirection::Right)
    };
    lemma_validated(v, a.cluster as int, d0, d0, k);
    lemma_validated(v, b.cluster as int, d1, d1, k);
}


/// Typing the non-empty bytes `t` at a cursor of the displayed text and then
/// deleting from the typing point to the cursor that typing returned gives
/// back the displayed text and leaves the cursor at the typing point, which
/// is the cursor itself unless it lay strictly inside a mention or at the
/// start before a leading mention. Where the texts are valid UTF-8 and the
/// typing was possible, so is the deletion.
pub proof fn lemma_type_then_delete(v: Seq<FragmentView>, c: int, t: Seq<u8>)
    requires
        v.len() > 0,
        0 <= c <= display_bytes(v).len(),
        t.len() > 0,
    ensures
        ({
            let p = typing_point(v, c);
            let (w, c2) = insert_str_result(v, c, t);
            &&& c2 == p + t.len()
            &&& display_bytes(delete_result(w, p, c2).0) == display_bytes(v)
            &&& delete_result(w, p, c2).1 == p
            &&& !inside_mention(v, c) && !(c == 0 && v[0] is Bot) ==> p == c
            &&& (texts_valid(v) && valid_utf8(t) && insert_str_ok(v, c, t) && display_bytes(v).len()
                + t.len() <= usize::MAX) ==> delete_ok(w, p, c2)
        }),
{
    lemma_typing_point(v, c);
    lemma_insert_str_display(v, c, t);
    lemma_delete_undoes_insert(v, c, t);
}

/// Deleting a non-empty selection: the displayed text loses the bytes from
/// the returned cursor to the end of the removed region (the selection
/// widened to whole mentions where it cuts into one), the cursor is no
/// later than the selection's start, and the mentions that do not meet the
/// selection stay, in order.
pub proof fn lemma_delete(v: Seq<FragmentView>, s: int, e: int)
    requires
        v.len() > 0,
        0 <= s < e,
    ensures
        ({
            let d = display_bytes(v);
            let n = d.len() as int;
            let (w, c) = delete_result(v, s, e);
            let h = del_end(v, s, e);
            &&& w.len() > 0
            &&& 0 <= c <= s
            &&& e <= h
            &&& display_bytes(w) == d.take(clamp(c, n)) + d.skip(clamp(h, n))
            &&& bot_ids(w) == surviving_bots(v, s, e)
        }),
{
    lemma_delete_display(v, s, e);
    lemma_delete_bots(v, s, e);
    let kept = del_keep(v, s, e);
    let v1 = if kept.len() == 0 {
        seq![FragmentView::Text(Seq::<u8>::empty())]
    } else {
        kept
    };
    crate::widgets::edit_laws::lemma_merge_pair_len(v1, position_of(v1, del_cursor(v, s, e)).0);
}

} // verus!
