//! Laws that span two editing operations: choosing a bot for a typed hint,
//! and deleting what was just typed.

use vstd::prelude::*;
use vstd::utf8::*;

use crate::widgets::editor::{
    FragmentView, display_bytes, content_bytes, bot_ids, frag_bytes, frag_len, frag_start, position_from,
    position_of, merge_pair, merge_range, joined_text, del_keep, del_cursor, del_end, del_one,
    overlaps, strictly_inside, lemma_display_concat, lemma_display_one, lemma_position_bounds,
    CaretState, caret_end, hint_ok, hint_bytes, hint_start, select_bot_ok, insert_bot_result,
    insert_bot_ok, delete_result, delete_ok, text_cut_ok, bot_display_bytes, last_at,
    lemma_last_at, lemma_merge_pair_keeps, insert_str_result, insert_str_ok,
};
use crate::widgets::editor_laws::{
    lemma_frag_next, lemma_frag_start_mono, texts_valid, lemma_position_start, lemma_delete_display,
    in_mention, inside_mention, surviving_bots, lemma_delete_bots,
    lemma_insert_bot_display, insert_point, lemma_display_split, clamp, lemma_insert_str_display,
};

verus! {

broadcast use vstd::seq::group_seq_axioms;

/// No fragment meets the selection `s..e`.
pub open spec fn none_meets(v: Seq<FragmentView>, s: int, e: int) -> bool {
    forall|j: int|
        0 <= j < v.len() ==> !overlaps(
            #[trigger] frag_start(v, j),
            frag_start(v, j) + frag_len(v[j]),
            s,
            e,
        )
}

/// A fragment starts at the same byte in a prefix of the message.
proof fn lemma_frag_start_prefix(v: Seq<FragmentView>, w: Seq<FragmentView>, j: int)
    requires
        w.len() <= v.len(),
        w == v.take(w.len() as int),
        0 <= j <= w.len(),
    ensures
        frag_start(w, j) == frag_start(v, j),
{
    assert(w.take(j) =~= v.take(j));
}

/// A deletion that meets no fragment keeps every fragment, and its cursor
/// and end are the selection's.
proof fn lemma_del_keep_none(v: Seq<FragmentView>, s: int, e: int)
    requires
        none_meets(v, s, e),
    ensures
        del_keep(v, s, e) == v,
        del_cursor(v, s, e) == s,
        del_end(v, s, e) == e,
    decreases v.len(),
{
    if v.len() > 0 {
        let w = v.drop_last();
        let l = v.len() - 1;
        assert forall|j: int| 0 <= j < w.len() implies !overlaps(
            #[trigger] frag_start(w, j),
            frag_start(w, j) + frag_len(w[j]),
            s,
            e,
        ) by {
            lemma_frag_start_prefix(v, w, j);
            assert(!overlaps(frag_start(v, j), frag_start(v, j) + frag_len(v[j]), s, e));
        }
        lemma_del_keep_none(w, s, e);
        assert(v.take(l) =~= w);
        assert(!overlaps(frag_start(v, l), frag_start(v, l) + frag_len(v[l]), s, e));
        assert(v.last() == v[l]);
        assert(del_one(v.last(), display_bytes(w).len() as int, s, e) == seq![v.last()]);
        assert(w + seq![v.last()] =~= v);
    }
}

/// The bytes that a deletion keeps of a text cut by the selection `s..e`.
pub open spec fn cut_text(b: Seq<u8>, rs: int, s: int, e: int) -> Seq<u8> {
    let re = rs + b.len();
    b.take(if s > rs { s - rs } else { 0 }) + b.skip(if e < re { e - rs } else { re - rs })
}

/// A deletion that meets only text `i`, and cuts into it, keeps every other
/// fragment and the cut text; its cursor and end are the selection's.
proof fn lemma_del_keep_single(v: Seq<FragmentView>, i: int, s: int, e: int)
    requires
        0 <= i < v.len(),
        v[i] is Text,
        overlaps(frag_start(v, i), frag_start(v, i) + frag_len(v[i]), s, e),
        !strictly_inside(frag_start(v, i), frag_start(v, i) + frag_len(v[i]), s, e),
        forall|j: int|
            0 <= j < v.len() && j != i ==> !overlaps(
                #[trigger] frag_start(v, j),
                frag_start(v, j) + frag_len(v[j]),
                s,
                e,
            ),
    ensures
        del_keep(v, s, e) == v.update(
            i,
            FragmentView::Text(cut_text(v[i]->Text_0, frag_start(v, i), s, e)),
        ),
        del_cursor(v, s, e) == s,
        del_end(v, s, e) == e,
    decreases v.len(),
{
    let w = v.drop_last();
    let l = v.len() - 1;
    assert(v.take(l) =~= w);
    assert(v.last() == v[l]);
    let f = FragmentView::Text(cut_text(v[i]->Text_0, frag_start(v, i), s, e));
    if i == l {
        assert forall|j: int| 0 <= j < w.len() implies !overlaps(
            #[trigger] frag_start(w, j),
            frag_start(w, j) + frag_len(w[j]),
            s,
            e,
        ) by {
            lemma_frag_start_prefix(v, w, j);
            assert(!overlaps(frag_start(v, j), frag_start(v, j) + frag_len(v[j]), s, e));
        }
        lemma_del_keep_none(w, s, e);
        assert(del_one(v.last(), display_bytes(w).len() as int, s, e) == seq![f]);
        assert(w + seq![f] =~= v.update(i, f));
    } else {
        assert forall|j: int| 0 <= j < w.len() && j != i implies !overlaps(
            #[trigger] frag_start(w, j),
            frag_start(w, j) + frag_len(w[j]),
            s,
            e,
        ) by {
            lemma_frag_start_prefix(v, w, j);
            assert(!overlaps(frag_start(v, j), frag_start(v, j) + frag_len(v[j]), s, e));
        }
        lemma_frag_start_prefix(v, w, i);
        lemma_del_keep_single(w, i, s, e);
        assert(!overlaps(frag_start(v, l), frag_start(v, l) + frag_len(v[l]), s, e));
        assert(del_one(v.last(), display_bytes(w).len() as int, s, e) == seq![v.last()]);
        assert(w.update(i, f) + seq![v.last()] =~= v.update(i, f));
    }
}


/// Searching from fragment `j0` for a byte that lies in fragment `i`, or at
/// its end, stops at `i` at the latest.
proof fn lemma_position_at_most(v: Seq<FragmentView>, j0: int, c: int, i: int)
    requires
        0 <= j0 <= i < v.len(),
        frag_start(v, j0) <= c <= frag_start(v, i) + frag_len(v[i]),
    ensures
        position_from(v, j0, c - frag_start(v, j0)).0 <= i,
    decreases i - j0,
{
    lemma_frag_next(v, j0);
    if frag_len(v[j0]) < c - frag_start(v, j0) {
        if j0 == i {
            assert(false);
        }
        lemma_position_at_most(v, j0 + 1, c, i);
    }
}

/// Joining two texts at `j` keeps the fragments before `j`, and puts there
/// a text that starts with the first of the two.
proof fn lemma_merge_pair_shape(v: Seq<FragmentView>, j: int)
    requires
        0 <= j < v.len(),
    ensures
        ({
            let w = merge_pair(v, j);
            &&& j < w.len()
            &&& w.take(j) == v.take(j)
            &&& frag_len(w[j]) >= frag_len(v[j])
            &&& v[j] is Text ==> (w[j] is Text && w[j]->Text_0.take(frag_len(v[j])) == v[j]->Text_0)
            &&& v[j] is Bot ==> w[j] == v[j]
            &&& (v[j] is Text && w[j] != v[j]) ==> (j + 1 < v.len() && v[j + 1] is Text
                && w[j]->Text_0 == v[j]->Text_0 + v[j + 1]->Text_0)
        }),
{
    let w = merge_pair(v, j);
    if j + 1 < v.len() && v[j] is Text && v[j + 1] is Text {
        let mid = v.subrange(j, j + 2);
        assert(mid =~= seq![v[j]] + seq![v[j + 1]]);
        lemma_display_concat(seq![v[j]], seq![v[j + 1]]);
        lemma_display_one(v[j]);
        lemma_display_one(v[j + 1]);
        let t = joined_text(mid);
        assert(t == v[j]->Text_0 + v[j + 1]->Text_0);
        assert(w == v.take(j) + seq![FragmentView::Text(t)] + v.skip(j + 2));
        assert(w[j] == FragmentView::Text(t));
        assert(w.take(j) =~= v.take(j));
        assert(t.take(frag_len(v[j])) =~= v[j]->Text_0);
    }
}

/// A search that stops at fragment `j` stops there, at the same offset,
/// once texts are joined at `j`.
proof fn lemma_position_merge(v: Seq<FragmentView>, j0: int, c0: int, j: int)
    requires
        0 <= j0 <= j < v.len(),
        0 <= c0,
        position_from(v, j0, c0).0 == j,
    ensures
        position_from(merge_pair(v, j), j0, c0) == position_from(v, j0, c0),
    decreases j - j0,
{
    let w = merge_pair(v, j);
    lemma_merge_pair_shape(v, j);
    if j0 < j {
        assert(w[j0] == w.take(j)[j0]);
        assert(v[j0] == v.take(j)[j0]);
        if frag_len(v[j0]) < c0 {
            lemma_position_merge(v, j0 + 1, c0 - frag_len(v[j0]), j);
        } else {
            assert(position_from(v, j0, c0).0 == j0);
        }
    } else {
        if frag_len(v[j]) < c0 {
            if j + 1 < v.len() {
                lemma_position_bounds(v, j + 1, c0 - frag_len(v[j]));
            } else {
                assert(w == v);
            }
        }
    }
}

/// Where `a` has a character boundary, so has `a` followed by `b`.
proof fn lemma_boundary_concat(a: Seq<u8>, b: Seq<u8>, o: int)
    requires
        valid_utf8(a),
        valid_utf8(b),
        0 <= o <= a.len(),
        is_char_boundary(a, o),
    ensures
        valid_utf8(a + b),
        is_char_boundary(a + b, o),
{
    valid_utf8_concat(a, b);
    let ab = a + b;
    is_char_boundary_start_end_of_seq(ab);
    if o < ab.len() {
        is_char_boundary_iff_not_is_continuation_byte(ab, o);
        if o < a.len() {
            is_char_boundary_iff_not_is_continuation_byte(a, o);
            assert(ab[o] == a[o]);
        } else {
            is_char_boundary_start_end_of_seq(b);
            is_char_boundary_iff_not_is_continuation_byte(b, 0);
            assert(ab[o] == b[0]);
        }
    }
}


/// Choosing a bot while the caret types a hint, in a message whose texts
/// are valid UTF-8 and whose displayed text `d` holds the caret: it is
/// possible when the message with the mention fits in memory; the hint is
/// the bytes of `d` from its `@` to the caret, and choosing replaces them by
/// the mention `@ name `, leaving the caret right after the mention.
#[verifier::spinoff_prover]
#[verifier::rlimit(40)]
pub proof fn lemma_select_bot(v: Seq<FragmentView>, c: CaretState, id: Seq<char>, name: Seq<char>)
    requires
        texts_valid(v),
        hint_ok(v, c),
        hint_bytes(v, c) is Some,
        caret_end(c).cluster <= display_bytes(v).len(),
        display_bytes(v).len() + bot_display_bytes(name).len() <= usize::MAX,
    ensures
        select_bot_ok(v, c, Some((id, name))),
        ({
            let d = display_bytes(v);
            let h = hint_bytes(v, c)->0;
            let s = hint_start(c, h);
            let e = caret_end(c).cluster as int;
            let (v1, c1) = delete_result(v, s, e);
            let r = insert_bot_result(v1, c1, id, name);
            &&& 0 <= s < e
            &&& d.subrange(s, e) == h
            &&& display_bytes(r.0) == d.take(s) + bot_display_bytes(name) + d.skip(e)
            &&& r.1 == s + bot_display_bytes(name).len()
        }),
{
    let d = display_bytes(v);
    let n = d.len() as int;
    let p = caret_end(c).cluster as int;
    let (i, off) = position_of(v, p);
    lemma_position_bounds(v, 0, p);
    assert(v.take(0) =~= Seq::<FragmentView>::empty());
    lemma_position_start(v, 0, p);
    let b = v[i]->Text_0;
    let pre = b.take(off);
    lemma_last_at(pre);
    let k = last_at(pre);
    let h = pre.skip(k);
    let rs = frag_start(v, i);
    let s = rs + k;
    let e = p;
    assert(hint_start(c, h) == s);
    assert(valid_utf8(b));
    is_char_boundary_iff_not_is_continuation_byte(b, k);
    assert(is_char_boundary(b, k));
    assert(is_char_boundary(b, off));
    lemma_frag_next(v, i);
    lemma_frag_start_mono(v, i + 1, v.len() as int);
    // Only text `i` meets the hint.
    assert forall|j: int| 0 <= j < v.len() && j != i implies !overlaps(
        #[trigger] frag_start(v, j),
        frag_start(v, j) + frag_len(v[j]),
        s,
        e,
    ) by {
        if j < i {
            lemma_frag_next(v, j);
            lemma_frag_start_mono(v, j + 1, i);
        } else {
            lemma_frag_start_mono(v, i + 1, j);
        }
    }
    let cut = b.take(k) + b.skip(off);
    assert(cut_text(b, rs, s, e) == cut);
    lemma_del_keep_single(v, i, s, e);
    let v1 = v.update(i, FragmentView::Text(cut));
    assert forall|j: int| 0 <= j < v.len() implies #[trigger] text_cut_ok(v[j], frag_start(v, j), s, e) by {
        if j != i {
            assert(!overlaps(frag_start(v, j), frag_start(v, j) + frag_len(v[j]), s, e));
        }
    }
    assert(delete_ok(v, s, e));
    lemma_delete_display(v, s, e);
    let v2 = delete_result(v, s, e).0;
    assert(delete_result(v, s, e).1 == s);
    assert(display_bytes(v2) == d.take(s) + d.skip(e));
    // Where the caret lands after the deletion.
    let (j, o) = position_of(v1, s);
    assert forall|x: int| 0 <= x <= i implies #[trigger] frag_start(v1, x) == frag_start(v, x) by {
        assert(v1.take(x) =~= v.take(x));
    }
    assert(v1[i] == FragmentView::Text(cut));
    assert(frag_len(v1[i]) == k + b.len() - off);
    assert(v2 == merge_pair(v1, j));
    lemma_merge_pair_keeps(v1, j);
    lemma_position_bounds(v1, 0, s);
    assert(v1.take(0) =~= Seq::<FragmentView>::empty());
    lemma_position_start(v1, 0, s);
    lemma_position_at_most(v1, 0, s, i);
    if j < i {
        lemma_frag_next(v1, j);
        lemma_frag_start_mono(v1, j + 1, i);
        assert(o == frag_len(v1[j]));
    }
    lemma_position_merge(v1, 0, s, j);
    lemma_merge_pair_shape(v1, j);
    assert(position_of(v2, s) == (j, o));
    assert(frag_start(v2, j) == frag_start(v1, j)) by {
        assert(v2.take(j) == v1.take(j));
    }
    // The texts around the caret are cut on character boundaries.
    valid_utf8_split(b, k);
    valid_utf8_split(b, off);
    assert(b.subrange(0, k) =~= b.take(k));
    assert(b.subrange(off, b.len() as int) =~= b.skip(off));
    is_char_boundary_start_end_of_seq(b.take(k));
    lemma_boundary_concat(b.take(k), b.skip(off), k);
    if let FragmentView::Text(b2) = v2[j] {
        if j == i {
            assert(o == k);
            if v2[j] != v1[j] {
                let b3 = v1[j + 1]->Text_0;
                assert(v1[j + 1] == v[j + 1]);
                lemma_boundary_concat(cut, b3, k);
            }
            assert(is_char_boundary(b2, o));
        } else {
            let bj = v1[j]->Text_0;
            assert(v1[j] == v[j]);
            assert(valid_utf8(bj));
            is_char_boundary_start_end_of_seq(bj);
            if v2[j] != v1[j] {
                let b3 = v1[j + 1]->Text_0;
                if j + 1 == i {
                    lemma_boundary_concat(bj, cut, o);
                } else {
                    assert(v1[j + 1] == v[j + 1]);
                    lemma_boundary_concat(bj, b3, o);
                }
            }
            assert(is_char_boundary(b2, o));
        }
    }
    assert(insert_point(v2, s) == s);
    lemma_insert_bot_display(v2, s, id, name);
    let dv = display_bytes(v2);
    assert(dv.take(s) =~= d.take(s));
    assert(dv.skip(s) =~= d.skip(e));
    // The hint is the bytes from its `@` to the caret.
    lemma_display_split(v, i);
    assert(d.subrange(s, e) =~= h);
}


/// Where an insertion puts its bytes: in text `k` of the result, from byte
/// `qo` of that text on; and where the texts were valid UTF-8 and the
/// insertion possible, that text is valid UTF-8 and the inserted bytes start
/// and end on its character boundaries.
proof fn lemma_inserted_text(v: Seq<FragmentView>, p: int, t: Seq<u8>) -> (r: (int, int))
    requires
        v.len() > 0,
        0 <= p,
    ensures
        ({
            let (k, qo) = r;
            let w = insert_str_result(v, p, t).0;
            &&& 0 <= k < w.len()
            &&& w[k] is Text
            &&& frag_start(w, k) + qo == insert_point(v, p)
            &&& 0 <= qo
            &&& qo + t.len() <= frag_len(w[k])
            &&& (texts_valid(v) && valid_utf8(t) && insert_str_ok(v, p, t)) ==> {
                &&& valid_utf8(w[k]->Text_0)
                &&& is_char_boundary(w[k]->Text_0, qo)
                &&& is_char_boundary(w[k]->Text_0, qo + t.len())
            }
        }),
{
    let (i, off) = position_of(v, p);
    lemma_position_bounds(v, 0, p);
    lemma_frag_next(v, i);
    let q = insert_point(v, p);
    let w = insert_str_result(v, p, t).0;
    let (k, nb, qo, v1) = match v[i] {
        FragmentView::Text(b) => {
            let nb = b.take(off) + t + b.skip(off);
            (i, nb, off, v.update(i, FragmentView::Text(nb)))
        },
        FragmentView::Bot { .. } => (i + 1, t, 0int, v.insert(i + 1, FragmentView::Text(t))),
    };
    assert(v1[k] == FragmentView::Text(nb));
    assert(w == merge_pair(v1, k));
    assert(frag_start(v1, k) + qo == q) by {
        if v[i] is Text {
            assert(v1.take(i) =~= v.take(i));
        } else {
            assert(v1.take(i + 1) =~= v.take(i + 1));
        }
    }
    lemma_merge_pair_shape(v1, k);
    assert(frag_start(w, k) == frag_start(v1, k)) by {
        assert(w.take(k) == v1.take(k));
    }
    if texts_valid(v) && valid_utf8(t) && insert_str_ok(v, p, t) {
        is_char_boundary_start_end_of_seq(t);
        if let FragmentView::Text(b) = v[i] {
            assert(valid_utf8(b));
            valid_utf8_split(b, off);
            assert(b.subrange(0, off) =~= b.take(off));
            assert(b.subrange(off, b.len() as int) =~= b.skip(off));
            is_char_boundary_start_end_of_seq(b.take(off));
            lemma_boundary_concat(b.take(off), t, off);
            is_char_boundary_start_end_of_seq(b.take(off) + t);
            lemma_boundary_concat(b.take(off) + t, b.skip(off), off);
            lemma_boundary_concat(b.take(off) + t, b.skip(off), off + t.len());
        }
        if w[k] != v1[k] {
            let b3 = v1[k + 1]->Text_0;
            assert(valid_utf8(b3)) by {
                if v[i] is Text {
                    assert(v1[k + 1] == v[k + 1]);
                } else {
                    assert(v1[k + 1] == v[i + 1]);
                }
            }
            lemma_boundary_concat(nb, b3, qo);
            lemma_boundary_concat(nb, b3, qo + t.len());
        }
    }
    (k, qo)
}

/// Deleting the bytes that an insertion has just put in gives back the
/// displayed text, and leaves the cursor where the insertion put them: they
/// lie in one text, so the deletion cuts into no mention. Where the texts
/// are valid UTF-8 and the insertion was possible, so is the deletion.
#[verifier::spinoff_prover]
pub proof fn lemma_delete_undoes_insert(v: Seq<FragmentView>, p: int, t: Seq<u8>)
    requires
        v.len() > 0,
        0 <= p,
        t.len() > 0,
    ensures
        ({
            let q = insert_point(v, p);
            let e = q + t.len();
            let w = insert_str_result(v, p, t).0;
            &&& display_bytes(delete_result(w, q, e).0) == display_bytes(v)
            &&& delete_result(w, q, e).1 == q
            &&& (texts_valid(v) && valid_utf8(t) && insert_str_ok(v, p, t) && display_bytes(v).len()
                + t.len() <= usize::MAX) ==> delete_ok(w, q, e)
        }),
{
    let d = display_bytes(v);
    lemma_insert_str_display(v, p, t);
    let q = insert_point(v, p);
    let e = q + t.len();
    let w = insert_str_result(v, p, t).0;
    let (k, qo) = lemma_inserted_text(v, p, t);
    lemma_frag_next(w, k);
    lemma_frag_start_mono(w, k + 1, w.len() as int);
    assert forall|j: int| 0 <= j < w.len() && j != k implies !overlaps(
        #[trigger] frag_start(w, j),
        frag_start(w, j) + frag_len(w[j]),
        q,
        e,
    ) by {
        if j < k {
            lemma_frag_next(w, j);
            lemma_frag_start_mono(w, j + 1, k);
        } else {
            lemma_frag_start_mono(w, k + 1, j);
        }
    }
    lemma_del_keep_single(w, k, q, e);
    lemma_delete_display(w, q, e);
    let dw = display_bytes(w);
    assert(dw.take(q) =~= d.take(q));
    assert(dw.skip(e) =~= d.skip(q));
    assert(d.take(q) + d.skip(q) =~= d);
    if texts_valid(v) && valid_utf8(t) && insert_str_ok(v, p, t) && d.len() + t.len() <= usize::MAX {
        assert forall|j: int| 0 <= j < w.len() implies #[trigger] text_cut_ok(w[j], frag_start(w, j), q, e) by {
            if j != k {
                assert(!overlaps(frag_start(w, j), frag_start(w, j) + frag_len(w[j]), q, e));
            }
        }
    }
}


/// A search from fragment `j` for a positive number of bytes stops at a
/// positive offset, or at a text.
proof fn lemma_position_positive(v: Seq<FragmentView>, j: int, c0: int)
    requires
        v.len() > 0,
        0 <= j <= v.len(),
        c0 > 0,
    ensures
        position_from(v, j, c0).1 > 0 || v[position_from(v, j, c0).0] is Text,
    decreases v.len() - j,
{
    if j < v.len() && frag_len(v[j]) < c0 {
        lemma_position_positive(v, j + 1, c0 - frag_len(v[j]));
    }
    if j == v.len() || (j < v.len() && frag_len(v[j]) < c0 && j + 1 == v.len()) {
        if v.last() is Bot {
            assert(frag_len(v.last()) >= 3);
        }
    }
}

/// Where an insertion at a cursor of the displayed text goes: at the cursor
/// itself, except that a cursor strictly inside a mention, or at the very
/// start before a leading mention, inserts right after that mention.
pub proof fn lemma_insert_point_at(v: Seq<FragmentView>, c: int, k: int)
    requires
        v.len() > 0,
        0 <= c <= display_bytes(v).len(),
    ensures
        in_mention(v, k, c) ==> insert_point(v, c) == frag_start(v, k) + frag_len(v[k]),
        c == 0 && v[0] is Bot ==> insert_point(v, c) == frag_len(v[0]),
        !inside_mention(v, c) && !(c == 0 && v[0] is Bot) ==> insert_point(v, c) == c,
{
    let (i, off) = position_of(v, c);
    lemma_position_bounds(v, 0, c);
    assert(v.take(0) =~= Seq::<FragmentView>::empty());
    lemma_position_start(v, 0, c);
    assert(frag_start(v, i) + off == c);
    if in_mention(v, k, c) {
        lemma_position_at_most(v, 0, c, k);
        if i < k {
            lemma_frag_next(v, i);
            lemma_frag_start_mono(v, i + 1, k);
        }
    }
    if c == 0 {
        assert(i == 0);
    }
    if !inside_mention(v, c) && !(c == 0 && v[0] is Bot) && v[i] is Bot {
        if c > 0 {
            lemma_position_positive(v, 0, c);
        } else {
            assert(i == 0);
        }
        if off < frag_len(v[i]) {
            assert(in_mention(v, i, c));
        }
    }
}


/// Mentioning a bot at a cursor puts its id among the mentioned bots right
/// after those of the fragments up to the one the cursor falls in.
pub proof fn lemma_insert_bot_ids(v: Seq<FragmentView>, cursor: int, bot_id: Seq<char>, name: Seq<char>)
    requires
        v.len() > 0,
        0 <= cursor,
    ensures
        ({
            let i = position_of(v, cursor).0;
            bot_ids(insert_bot_result(v, cursor, bot_id, name).0) == bot_ids(v.take(i + 1)) + seq![
                bot_id,
            ] + bot_ids(v.skip(i + 1))
        }),
{
    let (i, off) = position_of(v, cursor);
    lemma_position_bounds(v, 0, cursor);
    let pre = v.take(i);
    let post = v.skip(i + 1);
    let bot = FragmentView::Bot { bot_id, name };
    let w = insert_bot_result(v, cursor, bot_id, name).0;
    assert(v.take(i + 1) =~= pre + seq![v[i]]);
    lemma_display_concat(pre, seq![v[i]]);
    lemma_display_one(v[i]);
    lemma_display_one(bot);
    match v[i] {
        FragmentView::Text(b) => {
            let f1 = FragmentView::Text(b.take(off));
            let f2 = FragmentView::Text(b.skip(off));
            lemma_display_one(f1);
            lemma_display_one(f2);
            let mid = if off < b.len() {
                seq![f1, bot, f2]
            } else {
                seq![f1, bot]
            };
            assert(w =~= pre + mid + post);
            if off < b.len() {
                assert(mid =~= seq![f1] + seq![bot] + seq![f2]);
                lemma_display_concat(seq![f1], seq![bot]);
                lemma_display_concat(seq![f1] + seq![bot], seq![f2]);
            } else {
                assert(mid =~= seq![f1] + seq![bot]);
                lemma_display_concat(seq![f1], seq![bot]);
            }
            lemma_display_concat(pre, mid);
            lemma_display_concat(pre + mid, post);
            assert(bot_ids(w) =~= bot_ids(v.take(i + 1)) + seq![bot_id] + bot_ids(post));
        },
        FragmentView::Bot { .. } => {
            assert(w =~= pre + seq![v[i]] + seq![bot] + post);
            lemma_display_concat(pre + seq![v[i]], seq![bot]);
            lemma_display_concat(pre + seq![v[i]] + seq![bot], post);
            assert(bot_ids(w) =~= bot_ids(v.take(i + 1)) + seq![bot_id] + bot_ids(post));
        },
    }
}


/// Where typing at a cursor of the displayed text puts its bytes: the cursor
/// itself; the end of the mention it lies strictly inside; or, at the very
/// start before a leading mention, that mention's end.
pub open spec fn typing_point(v: Seq<FragmentView>, c: int) -> int {
    if inside_mention(v, c) {
        let k = choose|k: int| in_mention(v, k, c);
        frag_start(v, k) + frag_len(v[k])
    } else if c == 0 && v[0] is Bot {
        frag_len(v[0])
    } else {
        c
    }
}

/// An insertion at a cursor of the displayed text goes to its typing point.
pub proof fn lemma_typing_point(v: Seq<FragmentView>, c: int)
    requires
        v.len() > 0,
        0 <= c <= display_bytes(v).len(),
    ensures
        insert_point(v, c) == typing_point(v, c),
{
    if inside_mention(v, c) {
        let k = choose|k: int| in_mention(v, k, c);
        lemma_insert_point_at(v, c, k);
    } else {
        lemma_insert_point_at(v, c, 0);
    }
}

/// Typing the bytes `t` at a cursor of the displayed text `d` makes it
/// `d[..p] + t + d[p..]` at the typing point `p`, returns `p + t.len()`, and
/// leaves the mentioned bots as they were.
pub proof fn lemma_insert_str_at(v: Seq<FragmentView>, c: int, t: Seq<u8>)
    requires
        v.len() > 0,
        0 <= c <= display_bytes(v).len(),
    ensures
        ({
            let d = display_bytes(v);
            let p = typing_point(v, c);
            let r = insert_str_result(v, c, t);
            &&& display_bytes(r.0) == d.take(p) + t + d.skip(p)
            &&& r.1 == p + t.len()
            &&& bot_ids(r.0) == bot_ids(v)
        }),
{
    lemma_typing_point(v, c);
    lemma_insert_str_display(v, c, t);
}

/// Mentioning a bot at a cursor of the displayed text `d` makes it
/// `d[..p] + "@ name " + d[p..]` at the typing point `p`, returns the byte
/// after the mention, keeps the content, and puts the bot's id right after
/// the mentioned bots of the fragments up to the cursor's.
pub proof fn lemma_insert_bot_at(v: Seq<FragmentView>, c: int, bot_id: Seq<char>, name: Seq<char>)
    requires
        v.len() > 0,
        0 <= c <= display_bytes(v).len(),
    ensures
        ({
            let d = display_bytes(v);
            let p = typing_point(v, c);
            let r = insert_bot_result(v, c, bot_id, name);
            let i = position_of(v, c).0;
            &&& display_bytes(r.0) == d.take(p) + bot_display_bytes(name) + d.skip(p)
            &&& r.1 == p + bot_display_bytes(name).len()
            &&& content_bytes(r.0) == content_bytes(v)
            &&& bot_ids(r.0) == bot_ids(v.take(i + 1)) + seq![bot_id] + bot_ids(v.skip(i + 1))
        }),
{
    lemma_typing_point(v, c);
    lemma_insert_bot_display(v, c, bot_id, name);
    lemma_insert_bot_ids(v, c, bot_id, name);
}


/// Joining texts leaves at least one fragment.
pub proof fn lemma_merge_pair_len(v: Seq<FragmentView>, j: int)
    requires
        v.len() > 0,
    ensures
        merge_pair(v, j).len() > 0,
{
}


proof fn lemma_position_skipped(v: Seq<FragmentView>, j0: int, c: int)
    requires
        v.len() > 0,
        0 <= j0 <= v.len(),
        frag_start(v, j0) <= c,
    ensures
        forall|j: int|
            j0 <= j < position_from(v, j0, c - frag_start(v, j0)).0 ==> #[trigger] frag_start(v, j)
                + frag_len(v[j]) < c,
    decreases v.len() - j0,
{
    if j0 < v.len() && frag_len(v[j0]) < c - frag_start(v, j0) {
        lemma_frag_next(v, j0);
        lemma_position_skipped(v, j0 + 1, c);
    }
}

proof fn lemma_position_found(v: Seq<FragmentView>, j0: int, c: int)
    requires
        v.len() > 0,
        0 <= j0 <= v.len(),
        frag_start(v, j0) <= c,
    ensures
        ({
            let r = position_from(v, j0, c - frag_start(v, j0));
            ||| r.1 == c - frag_start(v, r.0)
            ||| (r.0 == v.len() - 1 && c > frag_start(v, r.0) + frag_len(v[r.0]))
        }),
    decreases v.len() - j0,
{
    let n = v.len() as int;
    if j0 == n {
        lemma_frag_next(v, n - 1);
        assert(v.last() == v[n - 1]);
    } else if frag_len(v[j0]) < c - frag_start(v, j0) {
        lemma_frag_next(v, j0);
        lemma_position_found(v, j0 + 1, c);
    }
}

/// Where a cursor falls: with a cursor in the displayed text, the first
/// fragment whose end reaches it, at the offset that leads from the
/// fragment's start to the cursor; past the end, the end of the last
/// fragment.
pub proof fn lemma_position(v: Seq<FragmentView>, c: int)
    requires
        v.len() > 0,
        0 <= c,
    ensures
        ({
            let (i, off) = position_of(v, c);
            &&& 0 <= i < v.len()
            &&& c <= display_bytes(v).len() ==> {
                &&& frag_start(v, i) + off == c
                &&& off <= frag_len(v[i])
                &&& forall|j: int| 0 <= j < i ==> #[trigger] frag_start(v, j) + frag_len(v[j]) < c
            }
            &&& c > display_bytes(v).len() ==> i == v.len() - 1 && off == frag_len(v[i])
        }),
{
    lemma_position_bounds(v, 0, c);
    assert(v.take(0) =~= Seq::<FragmentView>::empty());
    lemma_position_start(v, 0, c);
    lemma_position_skipped(v, 0, c);
    lemma_position_found(v, 0, c);
    let (i, off) = position_of(v, c);
    if c > display_bytes(v).len() {
        lemma_frag_next(v, i);
        lemma_frag_start_mono(v, i + 1, v.len() as int);
        if i < v.len() - 1 {
            assert(frag_start(v, i) + off == display_bytes(v).len());
            assert(off <= frag_len(v[i]));
            assert(false);
        }
    }
}


/// Where no mention meets the selection, a deletion keeps every mention.
proof fn lemma_surviving_all(v: Seq<FragmentView>, s: int, e: int)
    requires
        forall|j: int|
            0 <= j < v.len() && v[j] is Bot ==> !overlaps(
                #[trigger] frag_start(v, j),
                frag_start(v, j) + frag_len(v[j]),
                s,
                e,
            ),
    ensures
        surviving_bots(v, s, e) == bot_ids(v),
    decreases v.len(),
{
    if v.len() > 0 {
        let w = v.drop_last();
        let l = v.len() - 1;
        assert forall|j: int| 0 <= j < w.len() && w[j] is Bot implies !overlaps(
            #[trigger] frag_start(w, j),
            frag_start(w, j) + frag_len(w[j]),
            s,
            e,
        ) by {
            lemma_frag_start_prefix(v, w, j);
            assert(w[j] == v[j]);
        }
        lemma_surviving_all(w, s, e);
        assert(v.take(l) =~= w);
        assert(v.last() == v[l]);
        if v[l] is Bot {
            assert(!overlaps(frag_start(v, l), frag_start(v, l) + frag_len(v[l]), s, e));
        }
    }
}

/// Choosing a bot for a hint puts the bot's id among the mentioned bots,
/// which otherwise stay as they were, in order.
pub proof fn lemma_select_bot_ids(v: Seq<FragmentView>, c: CaretState, id: Seq<char>, name: Seq<char>)
    requires
        hint_ok(v, c),
        hint_bytes(v, c) is Some,
        caret_end(c).cluster <= display_bytes(v).len(),
    ensures
        ({
            let h = hint_bytes(v, c)->0;
            let s = hint_start(c, h);
            let e = caret_end(c).cluster as int;
            let (v1, c1) = delete_result(v, s, e);
            let r = insert_bot_result(v1, c1, id, name);
            exists|m: int|
                0 <= m <= bot_ids(v).len() && bot_ids(r.0) == bot_ids(v).take(m) + seq![id]
                    + bot_ids(v).skip(m)
        }),
{
    let p = caret_end(c).cluster as int;
    let (i, off) = position_of(v, p);
    lemma_position_bounds(v, 0, p);
    assert(v.take(0) =~= Seq::<FragmentView>::empty());
    lemma_position_start(v, 0, p);
    let b = v[i]->Text_0;
    let pre = b.take(off);
    lemma_last_at(pre);
    let k = last_at(pre);
    let h = pre.skip(k);
    let rs = frag_start(v, i);
    let s = rs + k;
    let e = p;
    assert(hint_start(c, h) == s);
    lemma_frag_next(v, i);
    assert forall|j: int| 0 <= j < v.len() && v[j] is Bot implies !overlaps(
        #[trigger] frag_start(v, j),
        frag_start(v, j) + frag_len(v[j]),
        s,
        e,
    ) by {
        if j < i {
            lemma_frag_next(v, j);
            lemma_frag_start_mono(v, j + 1, i);
        } else if j > i {
            lemma_frag_start_mono(v, i + 1, j);
        }
    }
    lemma_surviving_all(v, s, e);
    lemma_delete_bots(v, s, e);
    let (v1, c1) = delete_result(v, s, e);
    assert(v1.len() > 0) by {
        let kept = del_keep(v, s, e);
        let w1 = if kept.len() == 0 {
            seq![FragmentView::Text(Seq::<u8>::empty())]
        } else {
            kept
        };
        lemma_merge_pair_len(w1, position_of(w1, del_cursor(v, s, e)).0);
    }
    lemma_del_cursor_nonneg(v, s, e);
    lemma_insert_bot_ids(v1, c1, id, name);
    let j = position_of(v1, c1).0;
    lemma_position_bounds(v1, 0, c1);
    assert(v1 =~= v1.take(j + 1) + v1.skip(j + 1));
    lemma_display_concat(v1.take(j + 1), v1.skip(j + 1));
    let m = bot_ids(v1.take(j + 1)).len() as int;
    let ids = bot_ids(v);
    assert(ids.take(m) =~= bot_ids(v1.take(j + 1)));
    assert(ids.skip(m) =~= bot_ids(v1.skip(j + 1)));
}

proof fn lemma_del_cursor_nonneg(v: Seq<FragmentView>, s: int, e: int)
    requires
        0 <= s,
    ensures
        0 <= del_cursor(v, s, e),
        delete_result(v, s, e).1 >= 0 || !(s < e),
    decreases v.len(),
{
    if v.len() > 0 {
        lemma_del_cursor_nonneg(v.drop_last(), s, e);
    }
}

} // verus!
