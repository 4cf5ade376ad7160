//! The message editor: a message made of text fragments and bot mentions,
//! edited through byte cursors into its displayed text.

use vstd::prelude::*;
use std::ops::Range;
use vstd::utf8::*;

use crate::ext::{uuid_string, uuid_text};
use crate::widgets::bot_list::{BotList, first_with, last_with, next_up, next_down, filtered, first_id};
use crate::widgets::editor_laws::{
    texts_valid, lemma_view_texts_valid, lemma_display_valid, lemma_delete_ok,
};
use crate::text::{
    utf8, string_len, string_len_str, lemma_utf8_concat, lemma_utf8_ascii_char, lemma_utf8_valid,
    string_insert_str, string_remove_range, string_split_off, string_push_str, string_push,
    is_control_char, is_ascii_white,
};

verus! {

broadcast use vstd::seq::group_seq_axioms, vstd::utf8::encode_utf8_valid_utf8;

/// One fragment of an edited message: some text, or a mention of a bot,
/// which is displayed as `@ name `.
pub enum MessageFragment {
    Text(String),
    Bot { bot_id: String, name: String },
}

/// The abstract value of a fragment: the UTF-8 bytes of a text, or the id and
/// the name of a bot.
pub enum FragmentView {
    Text(Seq<u8>),
    Bot { bot_id: Seq<char>, name: Seq<char> },
}

impl View for MessageFragment {
    type V = FragmentView;

    open spec fn view(&self) -> FragmentView {
        match self {
            MessageFragment::Text(t) => FragmentView::Text(utf8(t@)),
            MessageFragment::Bot { bot_id, name } => FragmentView::Bot {
                bot_id: bot_id@,
                name: name@,
            },
        }
    }
}

/// The displayed bytes of a bot mention: `@ `, the name, and a space.
pub open spec fn bot_display_bytes(name: Seq<char>) -> Seq<u8> {
    seq![64u8, 32u8] + utf8(name) + seq![32u8]
}

/// The displayed bytes of a fragment.
pub open spec fn frag_bytes(f: FragmentView) -> Seq<u8> {
    match f {
        FragmentView::Text(b) => b,
        FragmentView::Bot { name, .. } => bot_display_bytes(name),
    }
}

/// The displayed length of a fragment, in bytes.
pub open spec fn frag_len(f: FragmentView) -> int {
    frag_bytes(f).len() as int
}

/// The abstract value of a list of fragments.
pub open spec fn frags_view(fs: Seq<MessageFragment>) -> Seq<FragmentView> {
    fs.map_values(|f: MessageFragment| f@)
}

/// The displayed bytes of a message: the bytes of its fragments in order.
pub open spec fn display_bytes(v: Seq<FragmentView>) -> Seq<u8>
    decreases v.len(),
{
    if v.len() == 0 {
        seq![]
    } else {
        display_bytes(v.drop_last()) + frag_bytes(v.last())
    }
}

/// The bytes of the texts of a message, without its bot mentions.
pub open spec fn content_bytes(v: Seq<FragmentView>) -> Seq<u8>
    decreases v.len(),
{
    if v.len() == 0 {
        seq![]
    } else {
        content_bytes(v.drop_last()) + match v.last() {
            FragmentView::Text(b) => b,
            FragmentView::Bot { .. } => Seq::<u8>::empty(),
        }
    }
}

/// The ids of the bots that a message mentions, in order.
pub open spec fn bot_ids(v: Seq<FragmentView>) -> Seq<Seq<char>>
    decreases v.len(),
{
    if v.len() == 0 {
        seq![]
    } else {
        bot_ids(v.drop_last()) + match v.last() {
            FragmentView::Text(_) => Seq::<Seq<char>>::empty(),
            FragmentView::Bot { bot_id, .. } => seq![bot_id],
        }
    }
}

/// Where fragment `i` starts in the displayed bytes.
pub open spec fn frag_start(v: Seq<FragmentView>, i: int) -> int {
    display_bytes(v.take(i)).len() as int
}

/// The fragment and the offset in it that a cursor falls in, searching from
/// fragment `i` with `c` bytes left: the first fragment whose end is not
/// before the cursor; past the end, the end of the last fragment.
pub open spec fn position_from(v: Seq<FragmentView>, i: int, c: int) -> (int, int)
    decreases v.len() - i,
{
    if i < 0 || i >= v.len() {
        (v.len() - 1, frag_len(v.last()))
    } else if frag_len(v[i]) >= c {
        (i, c)
    } else {
        position_from(v, i + 1, c - frag_len(v[i]))
    }
}

/// The fragment and the offset in it that a cursor falls in.
pub open spec fn position_of(v: Seq<FragmentView>, cursor: int) -> (int, int) {
    position_from(v, 0, cursor)
}

/// The texts of a run of fragments joined into one; the mentions among them
/// are dropped.
pub open spec fn joined_text(v: Seq<FragmentView>) -> Seq<u8> {
    content_bytes(v)
}

/// Fragments `from..=to` replaced by one text that joins their texts, when
/// the range holds more than one fragment.
pub open spec fn merge_range(v: Seq<FragmentView>, from: int, to: int) -> Seq<FragmentView> {
    if to - from > 0 {
        v.take(from) + seq![FragmentView::Text(joined_text(v.subrange(from, to + 1)))] + v.skip(to + 1)
    } else {
        v
    }
}

/// Fragments `i` and `i + 1` joined into one text when both are texts.
pub open spec fn merge_pair(v: Seq<FragmentView>, i: int) -> Seq<FragmentView> {
    if 0 <= i && i + 1 < v.len() && v[i] is Text && v[i + 1] is Text {
        merge_range(v, i, i + 1)
    } else {
        v
    }
}

/// The merge of every run of texts in a window of fragments, scanning it
/// from its last fragment `idx` down to `from`; `last` is the highest index
/// of the run of texts met so far.
pub open spec fn merge_scan(v: Seq<FragmentView>, from: int, idx: int, last: Option<int>) -> Seq<
    FragmentView,
>
    decreases idx - from + 1,
{
    if idx < from {
        match last {
            Some(l) => merge_range(v, from, l),
            None => v,
        }
    } else if v[idx] is Text {
        merge_scan(v, from, idx - 1, if last is Some { last } else { Some(idx) })
    } else {
        merge_scan(
            match last {
                Some(l) => merge_range(v, idx + 1, l),
                None => v,
            },
            from,
            idx - 1,
            None,
        )
    }
}

/// Over a window of two fragments the scan joins them exactly when both
/// are texts.
pub proof fn lemma_merge_scan_pair(v: Seq<FragmentView>, from: int)
    requires
        0 <= from < v.len(),
    ensures
        merge_scan(v, from, if from + 1 < v.len() { from + 1 } else { v.len() - 1 }, None)
            == merge_pair(v, from),
{
    if from + 1 < v.len() {
        let to = from + 1;
        if v[to] is Text {
            if v[from] is Text {
                assert(merge_scan(v, from, from, Some(to)) == merge_scan(v, from, from - 1, Some(to)));
            } else {
                let w = merge_range(v, to, to);
                assert(w == v);
                assert(merge_scan(v, from, from, Some(to)) == merge_scan(w, from, from - 1, None));
            }
        } else {
            if v[from] is Text {
                assert(merge_scan(v, from, from, None) == merge_scan(v, from, from - 1, Some(from)));
                assert(merge_range(v, from, from) == v);
            } else {
                assert(merge_scan(v, from, from, None) == merge_scan(v, from, from - 1, None));
            }
        }
    } else {
        if v[from] is Text {
            assert(merge_scan(v, from, from, None) == merge_scan(v, from, from - 1, Some(from)));
            assert(merge_range(v, from, from) == v);
        } else {
            assert(merge_scan(v, from, from, None) == merge_scan(v, from, from - 1, None));
        }
    }
}

/// The direction in which a cursor moves.
#[derive(Debug, Clone, Copy, PartialEq, Eq, Structural)]
pub enum MoveDirection {
    Left,
    Right,
}

/// A cursor kept out of the inside of a bot mention, searching from fragment
/// `i`, which starts at byte `acc`: a cursor inside a text stays; one inside a
/// mention goes to the mention's start or end, as `dir` says; one past the end
/// goes to the end.
pub open spec fn validate_from(
    v: Seq<FragmentView>,
    i: int,
    acc: int,
    cursor: int,
    dir: MoveDirection,
) -> int
    decreases v.len() - i,
{
    if i < 0 || i >= v.len() {
        acc
    } else {
        let end = acc + frag_len(v[i]);
        if acc <= cursor < end {
            match v[i] {
                FragmentView::Text(_) => cursor,
                FragmentView::Bot { .. } => if cursor != acc {
                    match dir {
                        MoveDirection::Left => acc,
                        MoveDirection::Right => end,
                    }
                } else {
                    cursor
                },
            }
        } else {
            validate_from(v, i + 1, end, cursor, dir)
        }
    }
}

/// A cursor kept out of the inside of a bot mention.
pub open spec fn validated(v: Seq<FragmentView>, cursor: int, dir: MoveDirection) -> int {
    validate_from(v, 0, 0, cursor, dir)
}

/// What inserting the bytes `t` at `cursor` makes of a message, and the
/// cursor after the inserted text. A cursor in a text inserts there; a cursor
/// in a mention inserts right after it. The inserted text is then joined with
/// a text that follows it.
pub open spec fn insert_str_result(v: Seq<FragmentView>, cursor: int, t: Seq<u8>) -> (
    Seq<FragmentView>,
    int,
) {
    let (i, off) = position_of(v, cursor);
    match v[i] {
        FragmentView::Bot { .. } => (
            merge_pair(v.insert(i + 1, FragmentView::Text(t)), i + 1),
            cursor - off + frag_len(v[i]) + t.len(),
        ),
        FragmentView::Text(b) => (
            merge_pair(v.update(i, FragmentView::Text(b.take(off) + t + b.skip(off))), i),
            cursor + t.len(),
        ),
    }
}

/// Inserting at `cursor` is possible: a cursor in a text lies on a character
/// boundary, and the cursor after the insertion fits a `usize`.
pub open spec fn insert_str_ok(v: Seq<FragmentView>, cursor: int, t: Seq<u8>) -> bool {
    let (i, off) = position_of(v, cursor);
    &&& v.len() > 0
    &&& (v[i] matches FragmentView::Text(b) ==> is_char_boundary(b, off))
    &&& insert_str_result(v, cursor, t).1 <= usize::MAX
}

/// What mentioning a bot at `cursor` makes of a message, and the cursor after
/// the mention. A cursor in a text splits the text there, keeping its tail
/// only when it is not empty; a cursor in a mention puts the new mention
/// right after it.
pub open spec fn insert_bot_result(
    v: Seq<FragmentView>,
    cursor: int,
    bot_id: Seq<char>,
    name: Seq<char>,
) -> (Seq<FragmentView>, int) {
    let (idx, off) = position_of(v, cursor);
    let bot = FragmentView::Bot { bot_id, name };
    match v[idx] {
        FragmentView::Text(b) => {
            let v1 = v.update(idx, FragmentView::Text(b.take(off)));
            let v2 = if off < b.len() {
                v1.insert(idx + 1, FragmentView::Text(b.skip(off)))
            } else {
                v1
            };
            (v2.insert(idx + 1, bot), cursor + frag_len(bot))
        },
        FragmentView::Bot { .. } => (
            v.insert(idx + 1, bot),
            cursor - off + frag_len(v[idx]) + frag_len(bot),
        ),
    }
}

/// Mentioning a bot at `cursor` is possible: a cursor in a text lies on a
/// character boundary, and the cursor after the mention fits a `usize`.
pub open spec fn insert_bot_ok(
    v: Seq<FragmentView>,
    cursor: int,
    bot_id: Seq<char>,
    name: Seq<char>,
) -> bool {
    let (i, off) = position_of(v, cursor);
    &&& v.len() > 0
    &&& (v[i] matches FragmentView::Text(b) ==> is_char_boundary(b, off))
    &&& insert_bot_result(v, cursor, bot_id, name).1 <= usize::MAX
}

/// The bytes `rs..re` of a fragment meet the selection `s..e`.
pub open spec fn overlaps(rs: int, re: int, s: int, e: int) -> bool {
    s < rs + (re - rs) && rs < e && s < re
}

/// The bytes `rs..re` of a fragment lie strictly inside the selection `s..e`.
pub open spec fn strictly_inside(rs: int, re: int, s: int, e: int) -> bool {
    s < rs && re < e
}

/// What deleting the selection `s..e` keeps of a fragment that starts at
/// byte `rs`: a fragment out of the selection stays; one strictly inside it
/// goes; a mention that meets it goes; a text that meets it loses the bytes
/// it shares with the selection.
pub open spec fn del_one(f: FragmentView, rs: int, s: int, e: int) -> Seq<FragmentView> {
    let re = rs + frag_len(f);
    if overlaps(rs, re, s, e) {
        if strictly_inside(rs, re, s, e) {
            Seq::empty()
        } else {
            match f {
                FragmentView::Text(b) => seq![
                    FragmentView::Text(
                        b.take(if s > rs { s - rs } else { 0 }) + b.skip(
                            if e < re { e - rs } else { re - rs },
                        ),
                    ),
                ],
                FragmentView::Bot { .. } => Seq::empty(),
            }
        }
    } else {
        seq![f]
    }
}

/// What deleting the selection `s..e` keeps of a message, fragment by fragment.
pub open spec fn del_keep(v: Seq<FragmentView>, s: int, e: int) -> Seq<FragmentView>
    decreases v.len(),
{
    if v.len() == 0 {
        seq![]
    } else {
        del_keep(v.drop_last(), s, e) + del_one(
            v.last(),
            display_bytes(v.drop_last()).len() as int,
            s,
            e,
        )
    }
}

/// The cursor after deleting the selection `s..e`: its start, or the start of
/// a mention that the selection cuts into from inside.
pub open spec fn del_cursor(v: Seq<FragmentView>, s: int, e: int) -> int
    decreases v.len(),
{
    if v.len() == 0 {
        s
    } else {
        let rs = display_bytes(v.drop_last()).len() as int;
        let re = rs + frag_len(v.last());
        let c = del_cursor(v.drop_last(), s, e);
        if v.last() is Bot && overlaps(rs, re, s, e) && !strictly_inside(rs, re, s, e) && rs < c {
            rs
        } else {
            c
        }
    }
}

/// Where the bytes that a deletion removes end: the end of the selection, or
/// the end of a mention that the selection cuts into from inside.
pub open spec fn del_end(v: Seq<FragmentView>, s: int, e: int) -> int
    decreases v.len(),
{
    if v.len() == 0 {
        e
    } else {
        let rs = display_bytes(v.drop_last()).len() as int;
        let re = rs + frag_len(v.last());
        let h = del_end(v.drop_last(), s, e);
        if v.last() is Bot && overlaps(rs, re, s, e) && !strictly_inside(rs, re, s, e) && re > h {
            re
        } else {
            h
        }
    }
}

/// A text that the selection cuts into is cut on character boundaries.
pub open spec fn text_cut_ok(f: FragmentView, rs: int, s: int, e: int) -> bool {
    match f {
        FragmentView::Text(b) => {
            let re = rs + b.len();
            (overlaps(rs, re, s, e) && !strictly_inside(rs, re, s, e)) ==> (is_char_boundary(
                b,
                if s > rs { s - rs } else { 0 },
            ) && is_char_boundary(b, if e < re { e - rs } else { re - rs }))
        },
        FragmentView::Bot { .. } => true,
    }
}

/// Deleting the selection `s..e` is possible: every text it cuts into is cut
/// on character boundaries, and the displayed text has at most `usize::MAX`
/// bytes.
pub open spec fn delete_ok(v: Seq<FragmentView>, s: int, e: int) -> bool {
    &&& v.len() > 0
    &&& display_bytes(v).len() <= usize::MAX
    &&& forall|i: int| 0 <= i < v.len() ==> #[trigger] text_cut_ok(v[i], frag_start(v, i), s, e)
}

/// What deleting the selection `s..e` makes of a message, and the cursor
/// after it. An empty selection changes nothing. Otherwise the kept
/// fragments stay, or one empty text when none is kept, and the texts around
/// the cursor are joined.
pub open spec fn delete_result(v: Seq<FragmentView>, s: int, e: int) -> (Seq<FragmentView>, int) {
    if !(s < e) {
        (v, s)
    } else {
        let kept = del_keep(v, s, e);
        let v1 = if kept.len() == 0 {
            seq![FragmentView::Text(Seq::<u8>::empty())]
        } else {
            kept
        };
        let c = del_cursor(v, s, e);
        (merge_pair(v1, position_of(v1, c).0), c)
    }
}

/// The cursor after a deletion is not past the start of the selection.
pub proof fn lemma_del_cursor_bound(v: Seq<FragmentView>, s: int, e: int)
    requires
        0 <= s,
    ensures
        0 <= del_cursor(v, s, e) <= s,
    decreases v.len(),
{
    if v.len() > 0 {
        lemma_del_cursor_bound(v.drop_last(), s, e);
    }
}

/// `position_from` names a fragment, and an offset in it that is no more than
/// the bytes left.
pub proof fn lemma_position_bounds(v: Seq<FragmentView>, i: int, c: int)
    requires
        v.len() > 0,
        0 <= i <= v.len(),
        0 <= c,
    ensures
        0 <= position_from(v, i, c).0 < v.len(),
        0 <= position_from(v, i, c).1 <= frag_len(v[position_from(v, i, c).0]),
        i < v.len() ==> position_from(v, i, c).1 <= c,
        position_from(v, i, c).0 >= i || (i == v.len() && position_from(v, i, c).0 == v.len()
            - 1),
    decreases v.len() - i,
{
    if i < v.len() && frag_len(v[i]) < c {
        lemma_position_bounds(v, i + 1, c - frag_len(v[i]));
        if i + 1 == v.len() {
            assert(v.last() == v[i]);
        }
    }
}

/// The displayed bytes up to fragment `i + 1` are those up to `i`, then those
/// of fragment `i`.
pub proof fn lemma_display_take(v: Seq<FragmentView>, i: int)
    requires
        0 <= i < v.len(),
    ensures
        display_bytes(v.take(i + 1)) == display_bytes(v.take(i)) + frag_bytes(v[i]),
        content_bytes(v.take(i + 1)) == content_bytes(v.take(i)) + match v[i] {
            FragmentView::Text(b) => b,
            FragmentView::Bot { .. } => Seq::<u8>::empty(),
        },
{
    assert(v.take(i + 1).drop_last() =~= v.take(i));
    assert(v.take(i + 1).last() == v[i]);
}

/// The displayed bytes of a prefix are a prefix of the displayed bytes.
pub proof fn lemma_display_prefix(v: Seq<FragmentView>, i: int)
    requires
        0 <= i <= v.len(),
    ensures
        display_bytes(v) == display_bytes(v.take(i)) + display_bytes(v.skip(i)),
        display_bytes(v.take(i)).len() <= display_bytes(v).len(),
{
    assert(v =~= v.take(i) + v.skip(i));
    lemma_display_concat(v.take(i), v.skip(i));
}

pub proof fn lemma_display_concat(a: Seq<FragmentView>, b: Seq<FragmentView>)
    ensures
        display_bytes(a + b) == display_bytes(a) + display_bytes(b),
        content_bytes(a + b) == content_bytes(a) + content_bytes(b),
        bot_ids(a + b) == bot_ids(a) + bot_ids(b),
    decreases b.len(),
{
    if b.len() == 0 {
        assert(a + b =~= a);
        assert(display_bytes(a) + display_bytes(b) =~= display_bytes(a));
        assert(content_bytes(a) + content_bytes(b) =~= content_bytes(a));
        assert(bot_ids(a) + bot_ids(b) =~= bot_ids(a));
    } else {
        lemma_display_concat(a, b.drop_last());
        assert((a + b).drop_last() =~= a + b.drop_last());
        assert((a + b).last() == b.last());
        assert(display_bytes(a + b) =~= display_bytes(a) + display_bytes(b));
        assert(content_bytes(a + b) =~= content_bytes(a) + content_bytes(b));
        assert(bot_ids(a + b) =~= bot_ids(a) + bot_ids(b));
    }
}

pub proof fn lemma_display_one(f: FragmentView)
    ensures
        display_bytes(seq![f]) == frag_bytes(f),
        content_bytes(seq![f]) == match f {
            FragmentView::Text(b) => b,
            FragmentView::Bot { .. } => Seq::<u8>::empty(),
        },
        bot_ids(seq![f]) == match f {
            FragmentView::Text(_) => Seq::<Seq<char>>::empty(),
            FragmentView::Bot { bot_id, .. } => seq![bot_id],
        },
{
    let e = Seq::<FragmentView>::empty();
    assert(seq![f].drop_last() =~= e);
    assert(display_bytes(e) =~= Seq::<u8>::empty());
    assert(content_bytes(e) =~= Seq::<u8>::empty());
    assert(bot_ids(e) =~= Seq::<Seq<char>>::empty());
    assert(display_bytes(seq![f]) =~= frag_bytes(f));
    assert(content_bytes(seq![f]) =~= content_bytes(e) + match f {
        FragmentView::Text(b) => b,
        FragmentView::Bot { .. } => Seq::<u8>::empty(),
    });
    assert(bot_ids(seq![f]) =~= bot_ids(e) + match f {
        FragmentView::Text(_) => Seq::<Seq<char>>::empty(),
        FragmentView::Bot { bot_id, .. } => seq![bot_id],
    });
}

/// Joining two adjacent texts does not change what is displayed, the content
/// or the mentioned bots.
pub proof fn lemma_merge_pair_keeps(v: Seq<FragmentView>, i: int)
    ensures
        display_bytes(merge_pair(v, i)) == display_bytes(v),
        content_bytes(merge_pair(v, i)) == content_bytes(v),
        bot_ids(merge_pair(v, i)) == bot_ids(v),
{
    if 0 <= i && i + 1 < v.len() && v[i] is Text && v[i + 1] is Text {
        let mid = v.subrange(i, i + 2);
        assert(v =~= v.take(i) + mid + v.skip(i + 2));
        assert(mid =~= seq![v[i]] + seq![v[i + 1]]);
        lemma_display_concat(seq![v[i]], seq![v[i + 1]]);
        lemma_display_one(v[i]);
        lemma_display_one(v[i + 1]);
        let t = FragmentView::Text(joined_text(mid));
        lemma_display_one(t);
        lemma_display_concat(v.take(i), mid);
        lemma_display_concat(v.take(i) + mid, v.skip(i + 2));
        lemma_display_concat(v.take(i), seq![t]);
        lemma_display_concat(v.take(i) + seq![t], v.skip(i + 2));
        assert(display_bytes(mid) =~= joined_text(mid));
    }
}


/// The displayed bytes of `@ ` are those two ASCII bytes.
proof fn lemma_mention_prefix()
    ensures
        utf8("@ "@) == seq![64u8, 32u8],
        utf8(" "@) == seq![32u8],
{
    reveal_strlit("@ ");
    reveal_strlit(" ");
    assert("@ "@ =~= seq!['@'] + seq![' ']);
    lemma_utf8_concat(seq!['@'], seq![' ']);
    lemma_utf8_ascii_char('@');
    lemma_utf8_ascii_char(' ');
    assert(" "@ =~= seq![' ']);
    assert(utf8("@ "@) =~= seq![64u8, 32u8]);
}

impl MessageFragment {
    /// A copy of the fragment.
    pub fn clone_fragment(&self) -> (r: MessageFragment)
        ensures
            r@ == self@,
    {
        match self {
            MessageFragment::Text(t) => MessageFragment::Text(t.clone()),
            MessageFragment::Bot { bot_id, name } => MessageFragment::Bot {
                bot_id: bot_id.clone(),
                name: name.clone(),
            },
        }
    }

    /// The displayed text of the fragment: the text itself, or `@ name `.
    pub fn display_text(&self) -> (r: String)
        ensures
            utf8(r@) == frag_bytes(self@),
    {
        match self {
            MessageFragment::Text(txt) => txt.clone(),
            MessageFragment::Bot { name, .. } => {
                let mut s = String::from_str("@ ");
                string_push_str(&mut s, name.as_str());
                string_push_str(&mut s, " ");
                proof {
                    lemma_mention_prefix();
                }
                s
            },
        }
    }

    /// The number of displayed bytes of the fragment.
    fn display_len(&self) -> (r: usize)
        ensures
            r == frag_len(self@),
    {
        match self {
            MessageFragment::Text(txt) => string_len(txt),
            MessageFragment::Bot { .. } => {
                let s = self.display_text();
                string_len(&s)
            },
        }
    }

    pub fn is_text(&self) -> (r: bool)
        ensures
            r == (self@ is Text),
    {
        match self {
            MessageFragment::Text(_) => true,
            MessageFragment::Bot { .. } => false,
        }
    }

    pub fn is_bot(&self) -> (r: bool)
        ensures
            r == (self@ is Bot),
    {
        match self {
            MessageFragment::Text(_) => false,
            MessageFragment::Bot { .. } => true,
        }
    }
}

/// A message while it is being edited: a list of fragments.
pub struct EditedMessage {
    pub fragments: Vec<MessageFragment>,
}

impl View for EditedMessage {
    type V = Seq<FragmentView>;

    open spec fn view(&self) -> Seq<FragmentView> {
        frags_view(self.fragments@)
    }
}

impl Default for EditedMessage {
    fn default() -> (r: Self)
        ensures
            r@ == seq![FragmentView::Text(Seq::<u8>::empty())],
    {
        let mut fragments = Vec::new();
        fragments.push(MessageFragment::Text(String::new()));
        let r = EditedMessage { fragments };
        proof {
            assert(utf8(Seq::<char>::empty()) =~= Seq::<u8>::empty());
            assert(r@ =~= seq![FragmentView::Text(Seq::<u8>::empty())]);
        }
        r
    }
}

impl EditedMessage {
    /// The displayed text: every fragment's displayed text, in order.
    pub fn display_message(&self) -> (r: String)
        ensures
            utf8(r@) == display_bytes(self@),
    {
        let ghost v = self@;
        let mut msg = String::new();
        let mut i: usize = 0;
        proof {
            assert(utf8(msg@) =~= Seq::<u8>::empty());
            assert(v.take(0) =~= Seq::<FragmentView>::empty());
        }
        while i < self.fragments.len()
            invariant
                v == self@,
                i <= self.fragments.len(),
                utf8(msg@) == display_bytes(v.take(i as int)),
            decreases self.fragments.len() - i,
        {
            let t = self.fragments[i].display_text();
            string_push_str(&mut msg, t.as_str());
            proof {
                assert(v.take(i + 1).drop_last() =~= v.take(i as int));
            }
            i += 1;
        }
        proof {
            assert(v.take(i as int) =~= v);
        }
        msg
    }

    /// The text of the message without its bot mentions.
    pub fn message_content(&self) -> (r: String)
        ensures
            utf8(r@) == content_bytes(self@),
    {
        let ghost v = self@;
        let mut msg = String::new();
        let mut i: usize = 0;
        proof {
            assert(utf8(msg@) =~= Seq::<u8>::empty());
            assert(v.take(0) =~= Seq::<FragmentView>::empty());
        }
        while i < self.fragments.len()
            invariant
                v == self@,
                i <= self.fragments.len(),
                utf8(msg@) == content_bytes(v.take(i as int)),
            decreases self.fragments.len() - i,
        {
            proof {
                assert(v.take(i + 1).drop_last() =~= v.take(i as int));
            }
            match &self.fragments[i] {
                MessageFragment::Text(txt) => string_push_str(&mut msg, txt.as_str()),
                MessageFragment::Bot { .. } => {
                    assert(utf8(msg@) =~= content_bytes(v.take(i as int)) + Seq::<u8>::empty());
                },
            }
            i += 1;
        }
        proof {
            assert(v.take(i as int) =~= v);
        }
        msg
    }

    /// The ids of the mentioned bots, in order.
    pub fn related_bot(&self) -> (r: Vec<String>)
        ensures
            r@.map_values(|s: String| s@) == bot_ids(self@),
    {
        let ghost v = self@;
        let mut bot_ids_v: Vec<String> = Vec::new();
        let mut i: usize = 0;
        proof {
            assert(v.take(0) =~= Seq::<FragmentView>::empty());
            assert(bot_ids_v@.map_values(|s: String| s@) =~= bot_ids(v.take(0)));
        }
        while i < self.fragments.len()
            invariant
                v == self@,
                i <= self.fragments.len(),
                bot_ids_v@.map_values(|s: String| s@) == bot_ids(v.take(i as int)),
            decreases self.fragments.len() - i,
        {
            proof {
                assert(v.take(i + 1).drop_last() =~= v.take(i as int));
            }
            let ghost before = bot_ids_v@;
            match &self.fragments[i] {
                MessageFragment::Text(_) => {
                    assert(bot_ids_v@.map_values(|s: String| s@) =~= bot_ids(v.take(i as int))
                        + Seq::<Seq<char>>::empty());
                },
                MessageFragment::Bot { bot_id, .. } => {
                    bot_ids_v.push(bot_id.clone());
                    assert(bot_ids_v@.map_values(|s: String| s@) =~= before.map_values(
                        |s: String| s@,
                    ).push(bot_id@));
                },
            }
            i += 1;
        }
        proof {
            assert(v.take(i as int) =~= v);
        }
        bot_ids_v
    }

    /// Replaces fragments `from..=to` by one text that joins their texts.
    fn merge_text(&mut self, from: usize, to: usize)
        requires
            from <= to < old(self)@.len(),
        ensures
            final(self)@ == merge_range(old(self)@, from as int, to as int),
    {
        if to - from > 0 {
            let ghost v = self@;
            let n = self.fragments.len();
            let mut txt = String::new();
            let mut i = from;
            proof {
                assert(utf8(txt@) =~= Seq::<u8>::empty());
                assert(v.subrange(from as int, from as int) =~= Seq::<FragmentView>::empty());
            }
            while i <= to
                invariant
                    v == self@,
                    from <= i <= to + 1,
                    to < n,
                    n == self@.len(),
                    utf8(txt@) == content_bytes(v.subrange(from as int, i as int)),
                decreases to + 1 - i,
            {
                proof {
                    assert(v.subrange(from as int, i + 1).drop_last() =~= v.subrange(
                        from as int,
                        i as int,
                    ));
                }
                match &self.fragments[i] {
                    MessageFragment::Text(t) => string_push_str(&mut txt, t.as_str()),
                    MessageFragment::Bot { .. } => {
                        assert(utf8(txt@) =~= content_bytes(v.subrange(from as int, i as int))
                            + Seq::<u8>::empty());
                    },
                }
                i += 1;
            }
            let ghost joined = utf8(txt@);
            self.fragments[from] = MessageFragment::Text(txt);
            let ghost w = self.fragments@;
            let mut k: usize = 0;
            while k < to - from
                invariant
                    from < to,
                    to < w.len(),
                    k <= to - from,
                    self.fragments@ == w.take(from + 1) + w.skip(from + 1 + k),
                decreases to - from - k,
            {
                self.fragments.remove(from + 1);
                proof {
                    assert(self.fragments@ =~= w.take(from + 1) + w.skip(from + 1 + k + 1));
                }
                k += 1;
            }
            proof {
                assert(self@ =~= merge_range(v, from as int, to as int));
            }
        }
    }

    /// Joins every run of texts among fragments `from..from + len`.
    fn try_merge_text(&mut self, from: usize, len: usize)
        requires
            old(self)@.len() > 0,
            len > 0,
            from + len - 1 <= usize::MAX,
        ensures
            final(self)@ == merge_scan(
                old(self)@,
                from as int,
                if from + len - 1 < old(self)@.len() - 1 {
                    from + len - 1
                } else {
                    old(self)@.len() - 1
                },
                None,
            ),
    {
        let ghost v = self@;
        let n = self.fragments.len();
        let to = if from + (len - 1) < n - 1 {
            from + (len - 1)
        } else {
            n - 1
        };
        let mut last_text: Option<usize> = None;
        let mut k = to + 1;
        while k > from
            invariant
                k <= to + 1,
                k <= self@.len(),
                last_text matches Some(l) ==> k <= l < self@.len() && from <= l,
                merge_scan(v, from as int, to as int, None) == merge_scan(
                    self@,
                    from as int,
                    k - 1,
                    match last_text {
                        Some(l) => Some(l as int),
                        None => None,
                    },
                ),
            decreases k,
        {
            k -= 1;
            let idx = k;
            if self.fragments[idx].is_text() {
                if last_text.is_none() {
                    last_text = Some(idx);
                }
            } else {
                if let Some(l) = last_text {
                    self.merge_text(idx + 1, l);
                }
                last_text = None;
            }
        }
        if let Some(l) = last_text {
            self.merge_text(from, l);
        }
    }

    /// Keeps `cursor` out of the inside of a bot mention: a cursor inside a
    /// mention goes to its start or its end, as `dir` says; a cursor past the
    /// end goes to the end.
    pub fn validate_cursor_position(&self, cursor: usize, dir: MoveDirection) -> (r: usize)
        requires
            display_bytes(self@).len() <= usize::MAX,
        ensures
            r == validated(self@, cursor as int, dir),
    {
        let ghost v = self@;
        let n = self.fragments.len();
        let mut acc: usize = 0;
        let mut i: usize = 0;
        proof {
            assert(v.take(0) =~= Seq::<FragmentView>::empty());
        }
        while i < n
            invariant
                v == self@,
                n == v.len(),
                i <= n,
                display_bytes(v).len() <= usize::MAX,
                acc == display_bytes(v.take(i as int)).len(),
                validated(v, cursor as int, dir) == validate_from(v, i as int, acc as int, cursor as int, dir),
            decreases n - i,
        {
            let len = self.fragments[i].display_len();
            proof {
                lemma_display_take(v, i as int);
                lemma_display_prefix(v, i + 1);
            }
            let start = acc;
            acc += len;
            if start <= cursor && cursor < acc {
                match &self.fragments[i] {
                    MessageFragment::Text(_) => return cursor,
                    MessageFragment::Bot { .. } => {
                        let mut position = cursor;
                        if position != start && position != acc {
                            position = match dir {
                                MoveDirection::Left => start,
                                MoveDirection::Right => acc,
                            };
                        }
                        return position;
                    },
                }
            }
            i += 1;
        }
        acc
    }

    /// Inserts the text `s` at `cursor` and returns the cursor after it.
    pub fn insert_str(&mut self, cursor: usize, s: &str) -> (r: usize)
        requires
            insert_str_ok(old(self)@, cursor as int, utf8(s@)),
        ensures
            (final(self)@, r as int) == insert_str_result(old(self)@, cursor as int, utf8(s@)),
    {
        let ghost v = self@;
        let n = self.fragments.len();
        let (mut i, mut offset) = self.position(cursor);
        let ghost i0 = i as int;
        let ghost off0 = offset as int;
        proof {
            lemma_position_bounds(v, 0, cursor as int);
        }
        let mut cursor = cursor;
        if self.fragments[i].is_bot() {
            self.fragments.insert(i + 1, MessageFragment::Text(String::new()));
            cursor = cursor - offset + self.fragments[i].display_len();
            offset = 0;
            i += 1;
            proof {
                assert(utf8(Seq::<char>::empty()) =~= Seq::<u8>::empty());
                assert(self@ =~= v.insert(i as int, FragmentView::Text(Seq::<u8>::empty())));
                lemma_utf8_valid(Seq::<char>::empty());
            }
        }
        let ghost w = self@;
        match &mut self.fragments[i] {
            MessageFragment::Text(txt) => {
                proof {
                    lemma_utf8_valid(txt@);
                }
                string_insert_str(txt, offset, s);
            },
            MessageFragment::Bot { .. } => {},
        }
        proof {
            let t = utf8(s@);
            match v[i0] {
                FragmentView::Text(b) => {
                    assert(w == v);
                    assert(self@ =~= v.update(i0, FragmentView::Text(b.take(off0) + t + b.skip(off0))));
                },
                FragmentView::Bot { .. } => {
                    assert(w[i as int] == FragmentView::Text(Seq::<u8>::empty()));
                    assert(Seq::<u8>::empty().take(0) + t + Seq::<u8>::empty().skip(0) =~= t);
                    assert(self@ =~= v.insert(i0 + 1, FragmentView::Text(t)));
                },
            }
            lemma_merge_scan_pair(self@, i as int);
        }
        let m = self.fragments.len();
        assert(i < m);
        self.try_merge_text(i, 2);
        cursor + string_len_str(s)
    }

    /// Mentions a bot at `cursor` and returns the cursor after the mention.
    pub fn insert_bot(&mut self, cursor: usize, bot_id: String, name: String) -> (r: usize)
        requires
            insert_bot_ok(old(self)@, cursor as int, bot_id@, name@),
        ensures
            (final(self)@, r as int) == insert_bot_result(
                old(self)@,
                cursor as int,
                bot_id@,
                name@,
            ),
    {
        let ghost v = self@;
        let n = self.fragments.len();
        let (mut idx, offset) = self.position(cursor);
        proof {
            lemma_position_bounds(v, 0, cursor as int);
        }
        let mut cursor = cursor;
        let ghost v2;
        match &mut self.fragments[idx] {
            MessageFragment::Text(txt) => {
                proof {
                    lemma_utf8_valid(txt@);
                }
                let new_text = string_split_off(txt, offset);
                if string_len(&new_text) > 0 {
                    self.fragments.insert(idx + 1, MessageFragment::Text(new_text));
                }
            },
            MessageFragment::Bot { .. } => {
                cursor = cursor - offset + self.fragments[idx].display_len();
            },
        }
        proof {
            v2 = self@;
            match v[idx as int] {
                FragmentView::Text(b) => {
                    let v1 = v.update(idx as int, FragmentView::Text(b.take(offset as int)));
                    if (offset as int) < b.len() {
                        assert(v2 =~= v1.insert(idx + 1, FragmentView::Text(b.skip(offset as int))));
                    } else {
                        assert(v2 =~= v1);
                    }
                },
                _ => {
                    assert(v2 =~= v);
                },
            }
        }
        idx += 1;
        let bot = MessageFragment::Bot { bot_id, name };
        cursor += bot.display_len();
        self.fragments.insert(idx, bot);
        proof {
            assert(self@ =~= v2.insert(idx as int, bot@));
        }
        cursor
    }

    /// Deletes the bytes `selected` of the displayed text and returns the
    /// cursor after the deletion. A mention that the selection meets goes
    /// whole; a text loses the bytes it shares with the selection.
    pub fn delete(&mut self, selected: Range<usize>) -> (r: usize)
        requires
            selected.start < selected.end ==> delete_ok(
                old(self)@,
                selected.start as int,
                selected.end as int,
            ),
        ensures
            (final(self)@, r as int) == delete_result(
                old(self)@,
                selected.start as int,
                selected.end as int,
            ),
    {
        if selected.start >= selected.end {
            return selected.start;
        }
        let ghost v = self@;
        let ghost s = selected.start as int;
        let ghost e = selected.end as int;
        let n = self.fragments.len();
        let mut kept: Vec<MessageFragment> = Vec::new();
        let mut acc: usize = 0;
        let mut cursor = selected.start;
        let mut idx: usize = 0;
        proof {
            assert(v.take(0) =~= Seq::<FragmentView>::empty());
            assert(frags_view(kept@) =~= Seq::<FragmentView>::empty());
        }
        while idx < n
            invariant
                v == self@,
                n == v.len(),
                idx <= n,
                s == selected.start,
                e == selected.end,
                s < e,
                delete_ok(v, s, e),
                acc == display_bytes(v.take(idx as int)).len(),
                frags_view(kept@) == del_keep(v.take(idx as int), s, e),
                cursor == del_cursor(v.take(idx as int), s, e),
            decreases n - idx,
        {
            let len = self.fragments[idx].display_len();
            proof {
                lemma_display_take(v, idx as int);
                lemma_display_prefix(v, idx + 1);
                assert(v.take(idx + 1).drop_last() =~= v.take(idx as int));
                assert(v.take(idx + 1).last() == v[idx as int]);
                assert(text_cut_ok(v[idx as int], frag_start(v, idx as int), s, e));
            }
            let ghost before = kept@;
            let start = acc;
            acc += len;
            if selected.start < acc && start < selected.end {
                if selected.start < start && acc < selected.end {
                    proof {
                        assert(frags_view(kept@) =~= frags_view(before) + Seq::<FragmentView>::empty());
                    }
                } else {
                    match &self.fragments[idx] {
                        MessageFragment::Text(txt) => {
                            let lo = if selected.start > start {
                                selected.start - start
                            } else {
                                0
                            };
                            let hi = if selected.end < acc {
                                selected.end - start
                            } else {
                                acc - start
                            };
                            let mut t = txt.clone();
                            proof {
                                lemma_utf8_valid(t@);
                            }
                            string_remove_range(&mut t, lo, hi);
                            kept.push(MessageFragment::Text(t));
                            proof {
                                assert(frags_view(kept@) =~= frags_view(before) + seq![
                                    FragmentView::Text(utf8(t@)),
                                ]);
                            }
                        },
                        MessageFragment::Bot { .. } => {
                            if start < cursor {
                                cursor = start;
                            }
                            proof {
                                assert(frags_view(kept@) =~= frags_view(before)
                                    + Seq::<FragmentView>::empty());
                            }
                        },
                    }
                }
            } else {
                kept.push(self.fragments[idx].clone_fragment());
                proof {
                    assert(frags_view(kept@) =~= frags_view(before) + seq![v[idx as int]]);
                }
            }
            idx += 1;
        }
        proof {
            assert(v.take(n as int) =~= v);
        }
        if kept.len() == 0 {
            kept.push(MessageFragment::Text(String::new()));
            proof {
                assert(utf8(Seq::<char>::empty()) =~= Seq::<u8>::empty());
                assert(frags_view(kept@) =~= seq![FragmentView::Text(Seq::<u8>::empty())]);
            }
        }
        self.fragments = kept;
        let (pos, _) = self.position(cursor);
        proof {
            lemma_position_bounds(self@, 0, cursor as int);
            lemma_merge_scan_pair(self@, pos as int);
        }
        let m = self.fragments.len();
        assert(pos < m);
        self.try_merge_text(pos, 2);
        cursor
    }

    /// The fragment and the offset in it that `cursor` falls in.
    pub fn position(&self, cursor: usize) -> (r: (usize, usize))
        requires
            self@.len() > 0,
        ensures
            (r.0 as int, r.1 as int) == position_of(self@, cursor as int),
    {
        let ghost v = self@;
        let n = self.fragments.len();
        let mut c = cursor;
        let mut max_offset: usize = 0;
        let mut idx: usize = 0;
        while idx < n
            invariant
                v == self@,
                n == v.len(),
                n > 0,
                idx <= n,
                position_from(v, 0, cursor as int) == position_from(v, idx as int, c as int),
                idx > 0 ==> max_offset == frag_len(v[idx - 1]),
            decreases n - idx,
        {
            max_offset = self.fragments[idx].display_len();
            if max_offset >= c {
                return (idx, c);
            }
            c -= max_offset;
            idx += 1;
        }
        (n - 1, max_offset)
    }
}


/// Where a caret was drawn: its row and its column among the glyphs.
#[derive(Debug, Clone, Copy, PartialEq, Eq, Structural)]
pub struct GlyphPosition {
    pub row: usize,
    pub col: usize,
}

/// A caret position: a byte offset into the displayed text, and where it was
/// drawn, if known.
#[derive(Debug, Clone, Copy, PartialEq, Eq, Structural)]
pub struct CaretPosition {
    pub cluster: usize,
    pub position: Option<GlyphPosition>,
}

impl Default for CaretPosition {
    fn default() -> (r: Self)
        ensures
            r == (CaretPosition { cluster: 0, position: None }),
    {
        CaretPosition { cluster: 0, position: None }
    }
}

/// The caret of a text area: one position, or a selection between a start
/// and an end, made or being made.
#[derive(Debug, Clone, Copy, PartialEq, Eq, Structural)]
pub enum CaretState {
    Caret(CaretPosition),
    Select(CaretPosition, CaretPosition),
    Selecting(CaretPosition, CaretPosition),
}

/// The position where the caret is: the caret itself, or a selection's end.
pub open spec fn caret_end(c: CaretState) -> CaretPosition {
    match c {
        CaretState::Caret(p) => p,
        CaretState::Select(_, p) => p,
        CaretState::Selecting(_, p) => p,
    }
}

/// The first byte of the selected range.
pub open spec fn select_start(c: CaretState) -> int {
    match c {
        CaretState::Caret(p) => p.cluster as int,
        CaretState::Select(a, b) => if a.cluster <= b.cluster {
            a.cluster as int
        } else {
            b.cluster as int
        },
        CaretState::Selecting(a, b) => if a.cluster <= b.cluster {
            a.cluster as int
        } else {
            b.cluster as int
        },
    }
}

/// The end of the selected range.
pub open spec fn select_end(c: CaretState) -> int {
    match c {
        CaretState::Caret(p) => p.cluster as int,
        CaretState::Select(a, b) => if a.cluster <= b.cluster {
            b.cluster as int
        } else {
            a.cluster as int
        },
        CaretState::Selecting(a, b) => if a.cluster <= b.cluster {
            b.cluster as int
        } else {
            a.cluster as int
        },
    }
}

/// A caret at byte `cluster`, with no drawn position.
pub open spec fn caret_at(cluster: int) -> CaretState {
    CaretState::Caret(CaretPosition { cluster: cluster as usize, position: None })
}

impl Default for CaretState {
    fn default() -> (r: Self)
        ensures
            r == caret_at(0),
    {
        CaretState::Caret(CaretPosition { cluster: 0, position: None })
    }
}

impl CaretState {
    /// The selected range, from its lower to its upper byte.
    pub fn select_range(&self) -> (r: Range<usize>)
        ensures
            r.start == select_start(*self),
            r.end == select_end(*self),
    {
        match self {
            CaretState::Caret(p) => p.cluster..p.cluster,
            CaretState::Select(a, b) | CaretState::Selecting(a, b) => {
                if a.cluster <= b.cluster {
                    a.cluster..b.cluster
                } else {
                    b.cluster..a.cluster
                }
            },
        }
    }

    /// The byte where the caret is.
    pub fn cluster(&self) -> (r: usize)
        ensures
            r == caret_end(*self).cluster,
    {
        match self {
            CaretState::Caret(p) => p.cluster,
            CaretState::Select(_, p) | CaretState::Selecting(_, p) => p.cluster,
        }
    }
}

/// A position moved to `cluster`; its drawn position is forgotten when it
/// moves.
pub open spec fn moved_to(p: CaretPosition, cluster: int) -> CaretPosition {
    if cluster != p.cluster {
        CaretPosition { cluster: cluster as usize, position: None }
    } else {
        p
    }
}

/// The caret after moving it in direction `dir`: its end is kept out of the
/// inside of any bot mention.
pub open spec fn moved_caret(v: Seq<FragmentView>, c: CaretState, dir: MoveDirection) -> CaretState {
    match c {
        CaretState::Caret(p) => CaretState::Caret(moved_to(p, validated(v, p.cluster as int, dir))),
        CaretState::Select(a, p) => CaretState::Select(
            a,
            moved_to(p, validated(v, p.cluster as int, dir)),
        ),
        CaretState::Selecting(a, p) => CaretState::Selecting(
            a,
            moved_to(p, validated(v, p.cluster as int, dir)),
        ),
    }
}

/// The ends of a selection after a check: each is kept out of the inside of
/// any bot mention, the lower end toward the left and the upper end toward
/// the right. The start is moved only when its checked place differs from the
/// end's byte.
pub open spec fn checked_pair(v: Seq<FragmentView>, a: CaretPosition, b: CaretPosition) -> (
    CaretPosition,
    CaretPosition,
) {
    let reverse = a.cluster > b.cluster;
    let (d0, d1) = if reverse {
        (MoveDirection::Right, MoveDirection::Left)
    } else {
        (MoveDirection::Left, MoveDirection::Right)
    };
    let c0 = validated(v, a.cluster as int, d0);
    let a2 = if c0 != b.cluster {
        CaretPosition { cluster: c0 as usize, position: None }
    } else {
        a
    };
    let c1 = validated(v, b.cluster as int, d1);
    (a2, moved_to(b, c1))
}

/// The caret after a check: a caret is kept out of the inside of any bot
/// mention, toward the right; a selection as `checked_pair` says.
pub open spec fn checked_caret(v: Seq<FragmentView>, c: CaretState) -> CaretState {
    match c {
        CaretState::Caret(p) => CaretState::Caret(
            moved_to(p, validated(v, p.cluster as int, MoveDirection::Right)),
        ),
        CaretState::Select(a, b) => CaretState::Select(checked_pair(v, a, b).0, checked_pair(v, a, b).1),
        CaretState::Selecting(a, b) => CaretState::Selecting(
            checked_pair(v, a, b).0,
            checked_pair(v, a, b).1,
        ),
    }
}

/// The index of the last `@` byte, or -1 when there is none.
pub open spec fn last_at(b: Seq<u8>) -> int
    decreases b.len(),
{
    if b.len() == 0 {
        -1
    } else if b.last() == 64u8 {
        b.len() - 1
    } else {
        last_at(b.drop_last())
    }
}

pub proof fn lemma_last_at(b: Seq<u8>)
    ensures
        -1 <= last_at(b) < b.len(),
        last_at(b) >= 0 ==> b[last_at(b)] == 64u8,
        forall|j: int| last_at(b) < j < b.len() ==> b[j] != 64u8,
    decreases b.len(),
{
    if b.len() > 0 && b.last() != 64u8 {
        lemma_last_at(b.drop_last());
        assert forall|j: int| last_at(b) < j < b.len() implies b[j] != 64u8 by {
            if j < b.len() - 1 {
                assert(b.drop_last()[j] == b[j]);
            }
        }
    }
}

/// The bytes of the hint that the caret is typing: in a text, the part before
/// the caret from its last `@` on; `None` when the caret is a selection, sits
/// in a mention, or no `@` precedes it in its text.
pub open spec fn hint_bytes(v: Seq<FragmentView>, c: CaretState) -> Option<Seq<u8>> {
    match c {
        CaretState::Caret(p) => {
            let (idx, off) = position_of(v, p.cluster as int);
            match v[idx] {
                FragmentView::Text(b) => {
                    let pre = b.take(off);
                    if last_at(pre) >= 0 {
                        Some(pre.skip(last_at(pre)))
                    } else {
                        None
                    }
                },
                FragmentView::Bot { .. } => None,
            }
        },
        _ => None,
    }
}

/// Asking for the hint is possible: with a caret, the message has a fragment,
/// and a caret in a text lies on a character boundary.
pub open spec fn hint_ok(v: Seq<FragmentView>, c: CaretState) -> bool {
    c matches CaretState::Caret(p) ==> {
        let (idx, off) = position_of(v, p.cluster as int);
        &&& v.len() > 0
        &&& v[idx] matches FragmentView::Text(b) ==> is_char_boundary(b, off)
    }
}

/// A message editor: the edited message and the caret in its displayed text.
pub struct MessageEditor {
    pub edit_message: EditedMessage,
    pub caret: CaretState,
}

impl MessageEditor {
    /// An editor of an empty message, with the caret at its start.
    pub fn new() -> (r: Self)
        ensures
            r.edit_message@ == seq![FragmentView::Text(Seq::<u8>::empty())],
            r.caret == caret_at(0),
    {
        MessageEditor { edit_message: EditedMessage::default(), caret: CaretState::default() }
    }

    /// Empties the message and puts the caret at its start.
    pub fn reset(&mut self)
        ensures
            final(self).edit_message@ == seq![FragmentView::Text(Seq::<u8>::empty())],
            final(self).caret == caret_at(0),
    {
        self.edit_message = EditedMessage::default();
        self.caret = CaretState::default();
    }

    /// The displayed text of the message.
    pub fn display_text(&self) -> (r: String)
        ensures
            utf8(r@) == display_bytes(self.edit_message@),
    {
        self.edit_message.display_message()
    }

    /// Mentions a bot at the start of the selection, and puts the caret after
    /// the mention.
    pub fn insert_bot(&mut self, bot_id: String, name: String)
        requires
            insert_bot_ok(
                old(self).edit_message@,
                select_start(old(self).caret),
                bot_id@,
                name@,
            ),
        ensures
            final(self).edit_message@ == insert_bot_result(
                old(self).edit_message@,
                select_start(old(self).caret),
                bot_id@,
                name@,
            ).0,
            final(self).caret == caret_at(
                insert_bot_result(
                    old(self).edit_message@,
                    select_start(old(self).caret),
                    bot_id@,
                    name@,
                ).1,
            ),
    {
        let mut cursor = self.caret.select_range().start;
        cursor = self.edit_message.insert_bot(cursor, bot_id, name);
        self.caret = CaretState::Caret(CaretPosition { cluster: cursor, position: None });
    }

    /// The bot name that the caret is typing after an `@`, `@` included.
    pub fn bot_hint(&self) -> (r: Option<String>)
        requires
            hint_ok(self.edit_message@, self.caret),
        ensures
            r is Some <==> hint_bytes(self.edit_message@, self.caret) is Some,
            r matches Some(h) ==> utf8(h@) == hint_bytes(self.edit_message@, self.caret)->0,
    {
        let cluster = match self.caret {
            CaretState::Caret(p) => p.cluster,
            _ => return None,
        };
        let ghost v = self.edit_message@;
        let (idx, offset) = self.edit_message.position(cluster);
        proof {
            lemma_position_bounds(v, 0, cluster as int);
        }
        match &self.edit_message.fragments[idx] {
            MessageFragment::Text(txt) => {
                let ghost b = utf8(txt@);
                proof {
                    lemma_utf8_valid(txt@);
                    valid_utf8_split(b, offset as int);
                }
                let (pre, _) = txt.as_str().split_at(offset);
                let bytes = pre.as_bytes();
                let ghost pb = b.take(offset as int);
                assert(bytes@ =~= pb);
                proof {
                    lemma_last_at(pb);
                }
                let mut k = offset;
                while k > 0 && bytes[k - 1] != 64u8
                    invariant
                        k <= offset,
                        bytes@ == pb,
                        pb.len() == offset,
                        forall|j: int| k <= j < offset ==> pb[j] != 64u8,
                    decreases k,
                {
                    k -= 1;
                }
                if k == 0 {
                    proof {
                        if last_at(pb) >= 0 {
                            assert(pb[last_at(pb)] == 64u8);
                        }
                    }
                    None
                } else {
                    let at = k - 1;
                    proof {
                        assert(pb[at as int] == 64u8);
                        if last_at(pb) != at {
                            assert(pb[last_at(pb)] == 64u8);
                        }
                        assert(last_at(pb) == at);
                        is_char_boundary_iff_not_is_continuation_byte(pb, at as int);
                        assert(!is_continuation_byte(64u8)) by (bit_vector);
                    }
                    let (_, hint) = pre.split_at(at);
                    let h = hint.to_owned();
                    proof {
                        assert(pb.subrange(at as int, pb.len() as int) =~= pb.skip(at as int));
                    }
                    Some(h)
                }
            },
            MessageFragment::Bot { .. } => None,
        }
    }

    /// Deletes the range `rg` of the displayed text, and puts the caret where
    /// the deletion leaves it; an empty range changes nothing.
    pub fn delete(&mut self, rg: Range<usize>)
        requires
            rg.start < rg.end ==> delete_ok(old(self).edit_message@, rg.start as int, rg.end as int),
        ensures
            !(rg.start < rg.end) ==> *final(self) == *old(self),
            rg.start < rg.end ==> final(self).edit_message@ == delete_result(
                old(self).edit_message@,
                rg.start as int,
                rg.end as int,
            ).0,
            rg.start < rg.end ==> final(self).caret == caret_at(
                delete_result(old(self).edit_message@, rg.start as int, rg.end as int).1,
            ),
            rg.start < rg.end ==> 0 <= delete_result(
                old(self).edit_message@,
                rg.start as int,
                rg.end as int,
            ).1 <= rg.start,
    {
        if rg.start >= rg.end {
            return ;
        }
        proof {
            lemma_del_cursor_bound(old(self).edit_message@, rg.start as int, rg.end as int);
        }
        let cluster = self.edit_message.delete(rg);
        self.caret = CaretState::Caret(CaretPosition { cluster, position: None });
    }

    /// Replaces the selection by the text `txt`, and puts the caret after it.
    pub fn insert_str(&mut self, txt: &str)
        requires
            select_start(old(self).caret) < select_end(old(self).caret) ==> delete_ok(
                old(self).edit_message@,
                select_start(old(self).caret),
                select_end(old(self).caret),
            ),
            insert_str_ok(
                typed_message(old(self).edit_message@, old(self).caret),
                typed_cursor(old(self).edit_message@, old(self).caret),
                utf8(txt@),
            ),
        ensures
            final(self).edit_message@ == insert_str_result(
                typed_message(old(self).edit_message@, old(self).caret),
                typed_cursor(old(self).edit_message@, old(self).caret),
                utf8(txt@),
            ).0,
            final(self).caret == caret_at(
                insert_str_result(
                    typed_message(old(self).edit_message@, old(self).caret),
                    typed_cursor(old(self).edit_message@, old(self).caret),
                    utf8(txt@),
                ).1,
            ),
    {
        let rg = self.caret.select_range();
        self.delete(rg);
        let mut cluster = self.caret.cluster();
        cluster = self.edit_message.insert_str(cluster, txt);
        self.caret = CaretState::Caret(CaretPosition { cluster, position: None });
    }

    /// Sets the caret after a move in direction `dir`, keeping its end out of
    /// the inside of any bot mention.
    pub fn update_caret_by_move(&mut self, caret: CaretState, dir: MoveDirection)
        requires
            display_bytes(old(self).edit_message@).len() <= usize::MAX,
        ensures
            final(self).edit_message == old(self).edit_message,
            final(self).caret == moved_caret(old(self).edit_message@, caret, dir),
    {
        let caret = match caret {
            CaretState::Caret(pos) => CaretState::Caret(self.moved_position(pos, dir)),
            CaretState::Select(start, pos) => CaretState::Select(start, self.moved_position(pos, dir)),
            CaretState::Selecting(start, pos) => CaretState::Selecting(
                start,
                self.moved_position(pos, dir),
            ),
        };
        self.caret = caret;
    }

    /// A position kept out of the inside of any bot mention, in direction
    /// `dir`; it is forgotten where it was drawn when it moves.
    fn moved_position(&self, pos: CaretPosition, dir: MoveDirection) -> (r: CaretPosition)
        requires
            display_bytes(self.edit_message@).len() <= usize::MAX,
        ensures
            r == moved_to(pos, validated(self.edit_message@, pos.cluster as int, dir)),
    {
        let cluster = self.edit_message.validate_cursor_position(pos.cluster, dir);
        if cluster != pos.cluster {
            CaretPosition { cluster, position: None }
        } else {
            pos
        }
    }

    /// The ends of a selection kept out of the inside of any bot mention.
    fn checked_positions(&self, start: CaretPosition, end: CaretPosition) -> (r: (
        CaretPosition,
        CaretPosition,
    ))
        requires
            display_bytes(self.edit_message@).len() <= usize::MAX,
        ensures
            r == checked_pair(self.edit_message@, start, end),
    {
        let mut start = start;
        let mut end = end;
        let is_reverse = start.cluster > end.cluster;
        let dirs = if is_reverse {
            (MoveDirection::Right, MoveDirection::Left)
        } else {
            (MoveDirection::Left, MoveDirection::Right)
        };
        let mut cluster = self.edit_message.validate_cursor_position(start.cluster, dirs.0);
        if cluster != end.cluster {
            start = CaretPosition { cluster, position: None };
        }
        cluster = self.edit_message.validate_cursor_position(end.cluster, dirs.1);
        if cluster != end.cluster {
            end = CaretPosition { cluster, position: None };
        }
        (start, end)
    }

    /// Sets the caret, keeping it out of the inside of any bot mention.
    pub fn set_caret_with_check(&mut self, caret: CaretState)
        requires
            display_bytes(old(self).edit_message@).len() <= usize::MAX,
        ensures
            final(self).edit_message == old(self).edit_message,
            final(self).caret == checked_caret(old(self).edit_message@, caret),
    {
        let caret = match caret {
            CaretState::Caret(pos) => CaretState::Caret(
                self.moved_position(pos, MoveDirection::Right),
            ),
            CaretState::Select(start, end) => {
                let (start, end) = self.checked_positions(start, end);
                CaretState::Select(start, end)
            },
            CaretState::Selecting(start, end) => {
                let (start, end) = self.checked_positions(start, end);
                CaretState::Selecting(start, end)
            },
        };
        self.caret = caret;
    }
}

/// A key pressed in the editor, as far as deleting goes.
#[derive(Debug, Clone, Copy, PartialEq, Eq, Structural)]
pub enum DeleteKey {
    Backspace,
    Delete,
    Other,
}

/// Where the character whose last byte is at `j` starts: back over the
/// continuation bytes.
pub open spec fn char_start_before(d: Seq<u8>, j: int) -> int
    decreases j,
{
    if j <= 0 {
        0
    } else if is_continuation_byte(d[j]) {
        char_start_before(d, j - 1)
    } else {
        j
    }
}

/// Where the character that goes on at `j` ends: on over the continuation
/// bytes.
pub open spec fn char_end_after(d: Seq<u8>, j: int) -> int
    decreases d.len() - j,
{
    if j >= d.len() {
        d.len() as int
    } else if is_continuation_byte(d[j]) {
        char_end_after(d, j + 1)
    } else {
        j
    }
}

proof fn lemma_char_start_before(d: Seq<u8>, j: int)
    requires
        valid_utf8(d),
        0 <= j < d.len(),
    ensures
        0 <= char_start_before(d, j) <= j,
        is_char_boundary(d, char_start_before(d, j)),
    decreases j,
{
    is_char_boundary_start_end_of_seq(d);
    if j > 0 {
        if is_continuation_byte(d[j]) {
            lemma_char_start_before(d, j - 1);
        } else {
            is_char_boundary_iff_not_is_continuation_byte(d, j);
        }
    }
}

proof fn lemma_char_end_after(d: Seq<u8>, j: int)
    requires
        valid_utf8(d),
        0 <= j <= d.len(),
    ensures
        j <= char_end_after(d, j) <= d.len(),
        char_end_after(d, j) < d.len() ==> is_char_boundary(d, char_end_after(d, j)),
    decreases d.len() - j,
{
    if j < d.len() {
        if is_continuation_byte(d[j]) {
            lemma_char_end_after(d, j + 1);
        } else {
            is_char_boundary_iff_not_is_continuation_byte(d, j);
        }
    }
}

/// The bytes of the displayed text `d` that a key deletes: the selection;
/// with nothing selected, the character before the caret for backspace and
/// the one after it for delete, where there is one; nothing for other keys.
pub open spec fn key_range(d: Seq<u8>, c: CaretState, key: DeleteKey) -> (int, int) {
    let s = select_start(c);
    let e = select_end(c);
    if s < e {
        (s, e)
    } else {
        match key {
            DeleteKey::Backspace => if s > 0 {
                (char_start_before(d, s - 1), s)
            } else {
                (s, e)
            },
            DeleteKey::Delete => if s < d.len() {
                (s, char_end_after(d, s + 1))
            } else {
                (s, e)
            },
            DeleteKey::Other => (s, e),
        }
    }
}

/// A deleting key can be handled: a selection cuts the texts on character
/// boundaries; a caret lies on a character boundary of the displayed text.
pub open spec fn delete_key_ok(v: Seq<FragmentView>, c: CaretState, key: DeleteKey) -> bool {
    let s = select_start(c);
    let e = select_end(c);
    key != DeleteKey::Other ==> if s < e {
        delete_ok(v, s, e)
    } else {
        v.len() > 0 && s <= display_bytes(v).len() && is_char_boundary(display_bytes(v), s)
    }
}

/// Handles backspace and delete: deletes the selection, or with nothing
/// selected the character before (backspace) or after (delete) the caret,
/// and puts the caret where the deletion leaves it. Returns whether the key
/// was one of the two; another key changes nothing.
pub fn deal_delete(this: &mut MessageEditor, key: DeleteKey) -> (r: bool)
    requires
        delete_key_ok(old(this).edit_message@, old(this).caret, key),
    ensures
        r == (key != DeleteKey::Other),
        ({
            let v = old(this).edit_message@;
            let (s, e) = key_range(display_bytes(v), old(this).caret, key);
            if key == DeleteKey::Other || !(s < e) {
                *final(this) == *old(this)
            } else {
                &&& final(this).edit_message@ == delete_result(v, s, e).0
                &&& final(this).caret == caret_at(delete_result(v, s, e).1)
            }
        }),
        ({
            let v = old(this).edit_message@;
            let (s, e) = (select_start(old(this).caret), select_end(old(this).caret));
            key != DeleteKey::Other && s < e ==> {
                &&& final(this).edit_message@ == delete_result(v, s, e).0
                &&& final(this).caret == caret_at(delete_result(v, s, e).1)
            }
        }),
{
    if key == DeleteKey::Other {
        return false;
    }
    let ghost v = this.edit_message@;
    let rg = this.caret.select_range();
    let mut start = rg.start;
    let mut end = rg.end;
    if start >= end {
        let text = this.display_text();
        let n = string_len(&text);
        let b = text.as_str().as_bytes();
        let ghost d = display_bytes(v);
        proof {
            lemma_view_texts_valid(this.edit_message.fragments@);
            lemma_display_valid(v);
            assert(b@ == d);
        }
        match key {
            DeleteKey::Backspace => {
                if start > 0 {
                    let mut j = start - 1;
                    while j > 0 && 0x80u8 <= b[j] && b[j] <= 0xbfu8
                        invariant
                            0 <= j < start <= n,
                            n == b@.len(),
                            char_start_before(b@, start - 1) == char_start_before(b@, j as int),
                        decreases j,
                    {
                        j -= 1;
                    }
                    proof {
                        lemma_char_start_before(d, start - 1);
                    }
                    start = j;
                }
            },
            DeleteKey::Delete => {
                if start < n {
                    let mut j = start + 1;
                    while j < n && 0x80u8 <= b[j] && b[j] <= 0xbfu8
                        invariant
                            start < j <= n,
                            n == b@.len(),
                            char_end_after(b@, start + 1) == char_end_after(b@, j as int),
                        decreases n - j,
                    {
                        j += 1;
                    }
                    proof {
                        lemma_char_end_after(d, start + 1);
                    }
                    end = j;
                }
            },
            DeleteKey::Other => {},
        }
        proof {
            if start < end {
                lemma_delete_ok(v, start as int, end as int);
            }
        }
    }
    this.delete(start..end);
    true
}

/// A key pressed with the command key held, as far as the clipboard goes.
#[derive(Debug, Clone, Copy, PartialEq, Eq, Structural)]
pub enum ClipboardKey {
    Paste,
    Copy,
    Cut,
    Other,
}

/// The selected bytes of the displayed text `d`, when something is selected.
pub open spec fn copied_bytes(d: Seq<u8>, c: CaretState) -> Option<Seq<u8>> {
    if select_start(c) < select_end(c) {
        Some(d.subrange(select_start(c), select_end(c)))
    } else {
        None
    }
}

/// A clipboard key can be handled: a selection that is copied or cut lies in
/// the displayed text with both ends on character boundaries, and pasted
/// text can be typed at the caret.
pub open spec fn clipboard_key_ok(
    v: Seq<FragmentView>,
    c: CaretState,
    with_command: bool,
    key: ClipboardKey,
    pasted: Option<Seq<char>>,
) -> bool {
    let d = display_bytes(v);
    let s = select_start(c);
    let e = select_end(c);
    with_command ==> match key {
        ClipboardKey::Copy | ClipboardKey::Cut => s < e ==> (v.len() > 0 && e <= d.len()
            && is_char_boundary(d, s) && is_char_boundary(d, e)),
        ClipboardKey::Paste => pasted matches Some(t) ==> ((s < e ==> delete_ok(v, s, e))
            && insert_str_ok(typed_message(v, c), typed_cursor(v, c), utf8(t))),
        ClipboardKey::Other => true,
    }
}

/// Handles a key pressed with the command key held: paste types the text
/// read from the clipboard, if any; copy hands back the selected text; cut
/// hands it back and deletes it. Returns whether the key was handled and the
/// text to write to the clipboard. Without the command key, or for another
/// key, nothing changes.
pub fn deal_copy_paste(
    this: &mut MessageEditor,
    with_command: bool,
    key: ClipboardKey,
    pasted: Option<String>,
) -> (r: (bool, Option<String>))
    requires
        clipboard_key_ok(
            old(this).edit_message@,
            old(this).caret,
            with_command,
            key,
            match pasted {
                Some(t) => Some(t@),
                None => None,
            },
        ),
    ensures
        ({
            let v = old(this).edit_message@;
            let c = old(this).caret;
            let d = display_bytes(v);
            let (s, e) = (select_start(c), select_end(c));
            &&& r.0 == (with_command && key != ClipboardKey::Other)
            &&& (with_command && (key == ClipboardKey::Copy || key == ClipboardKey::Cut)) ==> (
            match (r.1, copied_bytes(d, c)) {
                (Some(t), Some(b)) => utf8(t@) == b,
                (None, None) => true,
                _ => false,
            })
            &&& !(with_command && (key == ClipboardKey::Copy || key == ClipboardKey::Cut))
                ==> r.1 is None
            &&& (with_command && (key == ClipboardKey::Copy || key == ClipboardKey::Cut) && s < e)
                ==> (r.1 matches Some(t) && utf8(t@) == d.subrange(s, e))
            &&& (with_command && (key == ClipboardKey::Copy || key == ClipboardKey::Cut) && !(s
                < e)) ==> r.1 is None
            &&& if with_command && key == ClipboardKey::Cut && s < e {
                &&& final(this).edit_message@ == delete_result(v, s, e).0
                &&& final(this).caret == caret_at(delete_result(v, s, e).1)
            } else if with_command && key == ClipboardKey::Paste && pasted is Some {
                &&& final(this).edit_message@ == insert_str_result(
                    typed_message(v, c),
                    typed_cursor(v, c),
                    utf8(pasted->0@),
                ).0
                &&& final(this).caret == caret_at(
                    insert_str_result(typed_message(v, c), typed_cursor(v, c), utf8(pasted->0@)).1,
                )
            } else {
                *final(this) == *old(this)
            }
        }),
{
    if !with_command {
        return (false, None);
    }
    match key {
        ClipboardKey::Paste => {
            match pasted {
                Some(txt) => this.insert_str(txt.as_str()),
                None => {},
            }
            (true, None)
        },
        ClipboardKey::Copy => {
            let copied = this.copy_text();
            (true, copied)
        },
        ClipboardKey::Cut => {
            let copied = this.copy_text();
            if copied.is_some() {
                let rg = this.caret.select_range();
                let shown_len = string_len(&this.display_text());
                proof {
                    assert(shown_len == display_bytes(this.edit_message@).len());
                    let v = this.edit_message@;
                    lemma_view_texts_valid(this.edit_message.fragments@);
                    lemma_delete_ok(v, rg.start as int, rg.end as int);
                }
                this.delete(rg);
            }
            (true, copied)
        },
        ClipboardKey::Other => (false, None),
    }
}

impl MessageEditor {
    /// The selected part of the displayed text, when something is selected.
    pub fn copy_text(&self) -> (r: Option<String>)
        requires
            select_start(self.caret) < select_end(self.caret) ==> (select_end(self.caret)
                <= display_bytes(self.edit_message@).len() && is_char_boundary(
                display_bytes(self.edit_message@),
                select_start(self.caret),
            ) && is_char_boundary(display_bytes(self.edit_message@), select_end(self.caret))),
        ensures
            match (r, copied_bytes(display_bytes(self.edit_message@), self.caret)) {
                (Some(t), Some(b)) => utf8(t@) == b,
                (None, None) => true,
                _ => false,
            },
            select_start(self.caret) < select_end(self.caret) ==> (r matches Some(t) && utf8(t@)
                == display_bytes(self.edit_message@).subrange(
                select_start(self.caret),
                select_end(self.caret),
            )),
            !(select_start(self.caret) < select_end(self.caret)) ==> r is None,
    {
        let rg = self.caret.select_range();
        if rg.start >= rg.end {
            return None;
        }
        let text = self.display_text();
        let ghost d = display_bytes(self.edit_message@);
        let (head, _) = text.as_str().split_at(rg.end);
        proof {
            assert(utf8(head@) =~= d.subrange(0, rg.end as int));
            lemma_view_texts_valid(self.edit_message.fragments@);
            lemma_display_valid(self.edit_message@);
            valid_utf8_split(d, rg.end as int);
            assert(d.subrange(0, rg.end as int).subrange(0, rg.start as int) =~= d.subrange(0, rg.start as int));
            lemma_boundary_prefix(d, rg.start as int, rg.end as int);
        }
        let (_, piece) = head.split_at(rg.start);
        proof {
            assert(utf8(piece@) =~= d.subrange(rg.start as int, rg.end as int));
        }
        Some(String::from_str(piece))
    }
}

/// A character boundary of a valid text that lies before another boundary
/// is a boundary of the prefix that ends there.
proof fn lemma_boundary_prefix(d: Seq<u8>, s: int, e: int)
    requires
        valid_utf8(d),
        0 <= s <= e <= d.len(),
        is_char_boundary(d, s),
        is_char_boundary(d, e),
    ensures
        is_char_boundary(d.subrange(0, e), s),
{
    valid_utf8_split(d, e);
    let p = d.subrange(0, e);
    is_char_boundary_start_end_of_seq(p);
    if s < e {
        if s < d.len() {
            is_char_boundary_iff_not_is_continuation_byte(d, s);
            is_char_boundary_iff_not_is_continuation_byte(p, s);
        }
    }
}

/// The id, as text, and the name of the bot selected in the list, when one
/// of the list's bots is selected.
pub open spec fn bot_choice(bots: BotList) -> Option<(Seq<char>, Seq<char>)> {
    match bots.spec_selected() {
        Some(id) => if first_with(bots.spec_bots(), id) >= 0 {
            Some((uuid_string(id), bots.spec_bots()[first_with(bots.spec_bots(), id)].spec_name()))
        } else {
            None
        },
        None => None,
    }
}

/// The bytes of the hint end at the caret; where they start.
pub open spec fn hint_start(c: CaretState, h: Seq<u8>) -> int {
    caret_end(c).cluster - h.len()
}

/// Choosing a bot is possible: deleting the hint cuts texts on character
/// boundaries, and the mention can be put where the deletion leaves the
/// caret.
pub open spec fn select_bot_ok(v: Seq<FragmentView>, c: CaretState, choice: Option<(Seq<char>, Seq<char>)>) -> bool {
    &&& hint_ok(v, c)
    &&& match (hint_bytes(v, c), choice) {
        (Some(h), Some((id, name))) => {
            let s = hint_start(c, h);
            let e = caret_end(c).cluster as int;
            &&& delete_ok(v, s, e)
            &&& insert_bot_ok(delete_result(v, s, e).0, delete_result(v, s, e).1, id, name)
        },
        _ => true,
    }
}

/// Replaces the bot hint that the caret is typing by a mention of the bot
/// selected in the list, and puts the caret after the mention. Without a
/// hint or a selected bot nothing changes.
pub fn select_bot(text_area: &mut MessageEditor, bots: &BotList)
    requires
        select_bot_ok(old(text_area).edit_message@, old(text_area).caret, bot_choice(*bots)),
    ensures
        ({
            let v = old(text_area).edit_message@;
            let c = old(text_area).caret;
            match (hint_bytes(v, c), bot_choice(*bots)) {
                (Some(h), Some((id, name))) => {
                    let s = hint_start(c, h);
                    let e = caret_end(c).cluster as int;
                    let (v1, c1) = delete_result(v, s, e);
                    &&& final(text_area).edit_message@ == insert_bot_result(v1, c1, id, name).0
                    &&& final(text_area).caret == caret_at(insert_bot_result(v1, c1, id, name).1)
                },
                _ => *final(text_area) == *old(text_area),
            }
        }),
{
    let ghost v = text_area.edit_message@;
    let hint = text_area.bot_hint();
    if let Some(hint) = hint {
        if let Some((bot_id, name)) = bots.selected_bot() {
            let end = text_area.caret.cluster();
            let len = string_len(&hint);
            proof {
                let p = caret_end(text_area.caret).cluster as int;
                lemma_position_bounds(v, 0, p);
                let (i, off) = position_of(v, p);
                let b = v[i]->Text_0;
                let pre = b.take(off);
                lemma_last_at(pre);
                assert(len == pre.len() - last_at(pre));
            }
            text_area.delete(end - len..end);
            text_area.insert_bot(uuid_text(&bot_id), name);
        }
    }
}

/// What sending the typed message takes: the displayed text, shown as the
/// user's message; the bot to ask; and the content to send it.
pub struct Question {
    pub text: String,
    pub bot_id: String,
    pub content: String,
}

/// A question asks about a message: its text is the displayed text, its bot
/// the last one mentioned (or `def_bot_id` when none is), and its content the
/// text without the mentions.
pub open spec fn asks(q: Question, v: Seq<FragmentView>, def_bot_id: Seq<char>) -> bool {
    let ids = bot_ids(v);
    &&& utf8(q.text@) == display_bytes(v)
    &&& q.bot_id@ == if ids.len() > 0 {
        ids.last()
    } else {
        def_bot_id
    }
    &&& utf8(q.content@) == content_bytes(v)
}

/// The question that sending the typed message asks: nothing when the
/// displayed text is empty; otherwise that text, the last bot mentioned (or
/// `def_bot_id` when none is) and the text without its mentions.
pub fn question(text_area: &MessageEditor, def_bot_id: String) -> (r: Option<Question>)
    ensures
        r is None <==> display_bytes(text_area.edit_message@).len() == 0,
        r matches Some(q) ==> asks(q, text_area.edit_message@, def_bot_id@),
{
    let text = text_area.display_text();
    if string_len(&text) == 0 {
        return None;
    }
    let mut bots = text_area.edit_message.related_bot();
    let n = bots.len();
    let bot_id = if n > 0 {
        let ghost before = bots@;
        let last = bots.pop().unwrap();
        proof {
            assert(before.map_values(|s: String| s@).last() == last@);
        }
        last
    } else {
        def_bot_id
    };
    let content = text_area.edit_message.message_content();
    Some(Question { text, bot_id, content })
}

/// Whether typing inserts a character: any but a control character, unless
/// it is ASCII white space.
pub open spec fn typable(c: char) -> bool {
    !is_control_char(c) || is_ascii_white(c)
}

/// The characters of a typed text that typing inserts, in order.
pub open spec fn typable_chars(s: Seq<char>) -> Seq<char> {
    s.filter(|c: char| typable(c))
}

/// The characters of `chars` that typing inserts, in order.
pub fn typed_chars(chars: &str) -> (r: String)
    ensures
        r@ == typable_chars(chars@),
{
    let mut r = String::new();
    let ghost all = chars@;
    proof {
        reveal(Seq::filter);
        assert(all.take(0) =~= Seq::<char>::empty());
    }
    for c in it: chars.chars()
        invariant
            all == chars@,
            it.seq() == all,
            r@ == typable_chars(all.take(it.index() as int)),
    {
        let ghost i = it.index() as int;
        let code = c as u32;
        let control = code <= 0x1f || (0x7f <= code && code <= 0x9f);
        let white = c == ' ' || c == '\t' || c == '\n' || c == '\x0C' || c == '\r';
        proof {
            reveal(Seq::filter);
            assert(all.take(i + 1).drop_last() =~= all.take(i));
            assert(all.take(i + 1).last() == c);
        }
        if !control || white {
            string_push(&mut r, c);
        }
    }
    proof {
        assert(all.take(all.len() as int) =~= all);
    }
    r
}

/// Handles typed characters: with the command key held nothing is typed;
/// otherwise the characters that typing inserts replace the selection, and
/// the caret goes after them.
pub fn deal_chars(this: &mut MessageEditor, chars: &str, with_command: bool)
    requires
        !with_command ==> ((select_start(old(this).caret) < select_end(old(this).caret)
            ==> delete_ok(
            old(this).edit_message@,
            select_start(old(this).caret),
            select_end(old(this).caret),
        )) && insert_str_ok(
            typed_message(old(this).edit_message@, old(this).caret),
            typed_cursor(old(this).edit_message@, old(this).caret),
            utf8(typable_chars(chars@)),
        )),
    ensures
        with_command ==> *final(this) == *old(this),
        !with_command ==> final(this).edit_message@ == insert_str_result(
            typed_message(old(this).edit_message@, old(this).caret),
            typed_cursor(old(this).edit_message@, old(this).caret),
            utf8(typable_chars(chars@)),
        ).0,
        !with_command ==> final(this).caret == caret_at(
            insert_str_result(
                typed_message(old(this).edit_message@, old(this).caret),
                typed_cursor(old(this).edit_message@, old(this).caret),
                utf8(typable_chars(chars@)),
            ).1,
        ),
{
    if with_command {
        return ;
    }
    let txt = typed_chars(chars);
    this.insert_str(txt.as_str());
}

/// A key pressed in the editor, as far as the bot list and sending go.
#[derive(Debug, Clone, Copy, PartialEq, Eq, Structural)]
pub enum EditorEvent {
    Escape,
    ArrowUp,
    ArrowDown,
    Enter { with_shift: bool },
    Other,
}

/// What a key asks of the rest of the program: nothing, to ask a bot the
/// question, or to send the typed text as feedback.
pub enum EditorAction {
    Nothing,
    Ask(Question),
    Feedback(String),
}

/// A key in the editor can be handled: moving in a shown list keeps to a
/// listed selection, and choosing a bot from a shown list is possible.
pub open spec fn editor_event_ok(
    editor: MessageEditor,
    bots: BotList,
    visible: bool,
    ev: EditorEvent,
) -> bool {
    visible ==> match ev {
        EditorEvent::ArrowUp => bots.spec_selected() matches Some(id) ==> last_with(
            bots.listed(),
            id,
        ) >= 0,
        EditorEvent::ArrowDown => bots.spec_selected() matches Some(id) ==> first_with(
            bots.listed(),
            id,
        ) >= 0,
        EditorEvent::Enter { .. } => select_bot_ok(
            editor.edit_message@,
            editor.caret,
            bot_choice(bots),
        ),
        _ => true,
    }
}

/// Handles a key in the editor. While the bot list is shown, escape hides
/// it, the arrows move its selection and enter chooses the selected bot.
/// Otherwise enter without shift sends what was typed (as feedback in a
/// feedback channel, else as a question to a bot) and empties the editor.
/// Returns what to do with what was sent, and whether the key was handled;
/// an unhandled key changes nothing.
pub fn editor_event(
    editor: &mut MessageEditor,
    bots: &mut BotList,
    visible: &mut bool,
    ev: EditorEvent,
    is_feedback: bool,
    def_bot_id: String,
) -> (r: (EditorAction, bool))
    requires
        editor_event_ok(*old(editor), *old(bots), *old(visible), ev),
    ensures
        ({
            let shown = *old(visible);
            let v = old(editor).edit_message@;
            let send = !shown && ev == (EditorEvent::Enter { with_shift: false });
            &&& r.1 == (match ev {
                EditorEvent::Enter { with_shift } => shown || !with_shift,
                EditorEvent::Other => false,
                _ => shown,
            })
            &&& *final(visible) == (if ev == EditorEvent::Escape {
                false
            } else {
                shown
            })
            &&& if shown && ev == EditorEvent::ArrowUp {
                &&& final(bots).spec_bots() == old(bots).spec_bots()
                &&& final(bots).spec_filter() == old(bots).spec_filter()
                &&& final(bots).spec_selected() == next_up(
                    old(bots).listed(),
                    old(bots).spec_selected(),
                )
            } else if shown && ev == EditorEvent::ArrowDown {
                &&& final(bots).spec_bots() == old(bots).spec_bots()
                &&& final(bots).spec_filter() == old(bots).spec_filter()
                &&& final(bots).spec_selected() == next_down(
                    old(bots).listed(),
                    old(bots).spec_selected(),
                )
            } else {
                *final(bots) == *old(bots)
            }
            &&& if shown && ev is Enter {
                let c = old(editor).caret;
                match (hint_bytes(v, c), bot_choice(*old(bots))) {
                    (Some(h), Some((id, name))) => {
                        let s = hint_start(c, h);
                        let e = caret_end(c).cluster as int;
                        let (v1, c1) = delete_result(v, s, e);
                        &&& final(editor).edit_message@ == insert_bot_result(v1, c1, id, name).0
                        &&& final(editor).caret == caret_at(
                            insert_bot_result(v1, c1, id, name).1,
                        )
                    },
                    _ => *final(editor) == *old(editor),
                }
            } else if send {
                &&& final(editor).edit_message@ == seq![FragmentView::Text(Seq::<u8>::empty())]
                &&& final(editor).caret == caret_at(0)
            } else {
                *final(editor) == *old(editor)
            }
            &&& if send && display_bytes(v).len() > 0 {
                if is_feedback {
                    r.0 matches EditorAction::Feedback(t) && utf8(t@) == display_bytes(v)
                } else {
                    r.0 matches EditorAction::Ask(q) && asks(q, v, def_bot_id@)
                }
            } else {
                r.0 is Nothing
            }
        }),
{
    let shown = *visible;
    match ev {
        EditorEvent::Escape => {
            *visible = false;
            (EditorAction::Nothing, shown)
        },
        EditorEvent::ArrowUp => {
            if shown {
                bots.move_up();
            }
            (EditorAction::Nothing, shown)
        },
        EditorEvent::ArrowDown => {
            if shown {
                bots.move_down();
            }
            (EditorAction::Nothing, shown)
        },
        EditorEvent::Enter { with_shift } => {
            if shown {
                select_bot(editor, bots);
                (EditorAction::Nothing, true)
            } else if !with_shift {
                let action = if is_feedback {
                    let text = editor.display_text();
                    if string_len(&text) == 0 {
                        EditorAction::Nothing
                    } else {
                        EditorAction::Feedback(text)
                    }
                } else {
                    match question(editor, def_bot_id) {
                        Some(q) => EditorAction::Ask(q),
                        None => EditorAction::Nothing,
                    }
                };
                editor.reset();
                (action, true)
            } else {
                (EditorAction::Nothing, false)
            }
        },
        EditorEvent::Other => (EditorAction::Nothing, false),
    }
}

/// Keeps the bot list in step with the hint being typed: with a hint, the
/// list is filtered by the hint without its `@`, its first listed bot is
/// selected, and it is shown when it lists some bot; without a hint it is
/// hidden and left as it was.
pub fn update_bot_list(editor: &MessageEditor, bots: &mut BotList) -> (visible: bool)
    requires
        hint_ok(editor.edit_message@, editor.caret),
    ensures
        match hint_bytes(editor.edit_message@, editor.caret) {
            Some(h) => {
                &&& final(bots).spec_bots() == old(bots).spec_bots()
                &&& utf8(final(bots).spec_filter()) == h.skip(1)
                &&& final(bots).spec_selected() == first_id(final(bots).listed())
                &&& visible == (final(bots).listed().len() > 0)
            },
            None => !visible && *final(bots) == *old(bots),
        },
{
    match editor.bot_hint() {
        Some(hint) => {
            let mut hint = hint;
            proof {
                let b = utf8(hint@);
                let v = editor.edit_message@;
                let p = caret_end(editor.caret).cluster as int;
                lemma_position_bounds(v, 0, p);
                let (i, off) = position_of(v, p);
                let pre = v[i]->Text_0.take(off);
                lemma_last_at(pre);
                assert(b[0] == 64u8);
                reveal_with_fuel(is_char_boundary, 2);
                assert(is_char_boundary(b, 1)) by {
                    is_char_boundary_start_end_of_seq(b);
                    if b.len() > 1 {
                        is_char_boundary_iff_not_is_continuation_byte(b, 1);
                        lemma_after_ascii(b);
                    }
                }
            }
            let filter = string_split_off(&mut hint, 1);
            bots.set_filter(filter, true);
            let listed = bots.get_bots();
            listed.len() > 0
        },
        None => false,
    }
}

/// In valid UTF-8 that starts with an ASCII byte, the next byte starts a
/// character.
proof fn lemma_after_ascii(b: Seq<u8>)
    requires
        valid_utf8(b),
        b.len() > 1,
        b[0] < 0x80,
    ensures
        !is_continuation_byte(b[1]),
{
    reveal_with_fuel(is_char_boundary, 2);
    is_char_boundary_iff_not_is_continuation_byte(b, 1);
    assert(length_of_first_scalar(b) == 1);
    is_char_boundary_start_end_of_seq(pop_first_scalar(b));
    assert(is_char_boundary(b, 1));
}

/// The message once the selection of the caret is deleted.
pub open spec fn typed_message(v: Seq<FragmentView>, c: CaretState) -> Seq<FragmentView> {
    if select_start(c) < select_end(c) {
        delete_result(v, select_start(c), select_end(c)).0
    } else {
        v
    }
}

/// Where typing inserts once the selection of the caret is deleted.
pub open spec fn typed_cursor(v: Seq<FragmentView>, c: CaretState) -> int {
    if select_start(c) < select_end(c) {
        delete_result(v, select_start(c), select_end(c)).1
    } else {
        caret_end(c).cluster as int
    }
}

} // verus!
