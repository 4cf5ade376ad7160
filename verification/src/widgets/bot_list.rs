//! The list of bots that a mention picks from: filtered by a typed name, with
//! one of them selected.

use std::rc::Rc;

use uuid::Uuid;
use vstd::prelude::*;

use crate::ext::uuid_eq;
use crate::model::bot::Bot;
use crate::text::{contains_chars, str_contains};

verus! {

broadcast use vstd::seq::group_seq_axioms;

/// A bot passes the filter when its name contains it; an empty filter lets
/// every bot through.
pub open spec fn passes_filter(name: Seq<char>, filter: Seq<char>) -> bool {
    filter.len() == 0 || contains_chars(name, filter)
}

/// The bots that pass the filter, in their order.
pub open spec fn filtered(bots: Seq<Bot>, filter: Seq<char>) -> Seq<Bot>
    decreases bots.len(),
{
    if bots.len() == 0 {
        seq![]
    } else {
        filtered(bots.drop_last(), filter) + if passes_filter(bots.last().spec_name(), filter) {
            seq![bots.last()]
        } else {
            Seq::<Bot>::empty()
        }
    }
}

/// The index of the first bot with the id, or -1 when there is none.
pub open spec fn first_with(bots: Seq<Bot>, id: Uuid) -> int
    decreases bots.len(),
{
    if bots.len() == 0 {
        -1
    } else if first_with(bots.drop_last(), id) >= 0 {
        first_with(bots.drop_last(), id)
    } else if bots.last().spec_id() == id {
        bots.len() - 1
    } else {
        -1
    }
}

/// The index of the last bot with the id, or -1 when there is none.
pub open spec fn last_with(bots: Seq<Bot>, id: Uuid) -> int
    decreases bots.len(),
{
    if bots.len() == 0 {
        -1
    } else if bots.last().spec_id() == id {
        bots.len() - 1
    } else {
        last_with(bots.drop_last(), id)
    }
}

/// The selection after a move down the listed bots: the bot after the first
/// one selected, wrapping to the first; with nothing selected, the first.
pub open spec fn next_down(fs: Seq<Bot>, sel: Option<Uuid>) -> Option<Uuid> {
    match sel {
        None => if fs.len() > 0 {
            Some(fs[0].spec_id())
        } else {
            None
        },
        Some(id) => {
            let k = first_with(fs, id);
            if k + 1 < fs.len() {
                Some(fs[k + 1].spec_id())
            } else {
                Some(fs[0].spec_id())
            }
        },
    }
}

/// The selection after a move up the listed bots: the bot before the last
/// one selected, wrapping to the last; with nothing selected, the last.
pub open spec fn next_up(fs: Seq<Bot>, sel: Option<Uuid>) -> Option<Uuid> {
    match sel {
        None => if fs.len() > 0 {
            Some(fs[fs.len() - 1].spec_id())
        } else {
            None
        },
        Some(id) => {
            let k = last_with(fs, id);
            if k > 0 {
                Some(fs[k - 1].spec_id())
            } else {
                Some(fs[fs.len() - 1].spec_id())
            }
        },
    }
}

/// The id of the first bot, if there is one.
pub open spec fn first_id(fs: Seq<Bot>) -> Option<Uuid> {
    if fs.len() > 0 {
        Some(fs[0].spec_id())
    } else {
        None
    }
}

proof fn lemma_first_with(bots: Seq<Bot>, id: Uuid)
    ensures
        -1 <= first_with(bots, id) < bots.len(),
        first_with(bots, id) >= 0 ==> bots[first_with(bots, id)].spec_id() == id,
        forall|j: int| 0 <= j < bots.len() && (first_with(bots, id) < 0 || j < first_with(bots, id))
            ==> bots[j].spec_id() != id,
    decreases bots.len(),
{
    if bots.len() > 0 {
        lemma_first_with(bots.drop_last(), id);
        assert forall|j: int|
            0 <= j < bots.len() && (first_with(bots, id) < 0 || j < first_with(bots, id)) implies bots[j].spec_id()
            != id by {
            if j < bots.len() - 1 {
                assert(bots.drop_last()[j] == bots[j]);
            }
        }
    }
}

proof fn lemma_last_with(bots: Seq<Bot>, id: Uuid)
    ensures
        -1 <= last_with(bots, id) < bots.len(),
        last_with(bots, id) >= 0 ==> bots[last_with(bots, id)].spec_id() == id,
        forall|j: int| last_with(bots, id) < j < bots.len() ==> bots[j].spec_id() != id,
    decreases bots.len(),
{
    if bots.len() > 0 && bots.last().spec_id() != id {
        lemma_last_with(bots.drop_last(), id);
        assert forall|j: int| last_with(bots, id) < j < bots.len() implies bots[j].spec_id() != id by {
            if j < bots.len() - 1 {
                assert(bots.drop_last()[j] == bots[j]);
            }
        }
    }
}

/// No two of the bots share an id.
pub open spec fn distinct_ids(fs: Seq<Bot>) -> bool {
    forall|i: int, j: int| 0 <= i < j < fs.len() ==> fs[i].spec_id() != fs[j].spec_id()
}

/// Where ids are distinct, the bot at `k` is the first and the last one with
/// its id.
proof fn lemma_unique_index(fs: Seq<Bot>, k: int)
    requires
        distinct_ids(fs),
        0 <= k < fs.len(),
    ensures
        first_with(fs, fs[k].spec_id()) == k,
        last_with(fs, fs[k].spec_id()) == k,
{
    let id = fs[k].spec_id();
    lemma_first_with(fs, id);
    lemma_last_with(fs, id);
    let f = first_with(fs, id);
    let l = last_with(fs, id);
    if f != k {
        if f < 0 || k < f {
        } else {
            assert(fs[f].spec_id() != fs[k].spec_id());
        }
    }
    if l != k {
        if l < k {
        } else {
            assert(fs[k].spec_id() != fs[l].spec_id());
        }
    }
}

/// Where the listed bots have distinct ids, a move up undoes a move down of a
/// listed selection, and a move down undoes a move up.
pub proof fn lemma_move_round_trip(fs: Seq<Bot>, id: Uuid)
    requires
        distinct_ids(fs),
        first_with(fs, id) >= 0,
    ensures
        next_down(fs, Some(id)) matches Some(d) && last_with(fs, d) >= 0,
        next_up(fs, next_down(fs, Some(id))) == Some(id),
        next_up(fs, Some(id)) matches Some(u) && first_with(fs, u) >= 0,
        next_down(fs, next_up(fs, Some(id))) == Some(id),
{
    lemma_first_with(fs, id);
    let k = first_with(fs, id);
    lemma_unique_index(fs, k);
    let n = fs.len() as int;
    let d = if k + 1 < n { k + 1 } else { 0 };
    lemma_unique_index(fs, d);
    let u = if k > 0 { k - 1 } else { n - 1 };
    lemma_unique_index(fs, u);
}

proof fn lemma_passes(name: Seq<char>, filter: Seq<char>)
    ensures
        passes_filter(name, filter) <==> (filter.len() == 0 || exists|i: int|
            0 <= i && i + filter.len() <= name.len() && #[trigger] name.subrange(i, i + filter.len())
                == filter),
{
    if filter.len() > 0 {
        if passes_filter(name, filter) {
            let i = choose|i: int|
                0 <= i && i + filter.len() <= name.len() && #[trigger] name.subrange(i, i + filter.len())
                    == filter;
            assert(name.subrange(i, i + filter.len()) == filter);
        }
        if exists|i: int|
            0 <= i && i + filter.len() <= name.len() && #[trigger] name.subrange(i, i + filter.len())
                == filter {
            let i = choose|i: int|
                0 <= i && i + filter.len() <= name.len() && #[trigger] name.subrange(i, i + filter.len())
                    == filter;
            assert(name.subrange(i, i + filter.len()) == filter);
            assert(contains_chars(name, filter));
        }
    }
}

/// A bot is listed exactly when it is one of the bots and the filter is
/// empty or occurs somewhere in its name, at its start or anywhere after.
pub proof fn lemma_listed_bots(bots: Seq<Bot>, filter: Seq<char>)
    ensures
        forall|b: Bot|
            #[trigger] filtered(bots, filter).contains(b) <==> (bots.contains(b) && (filter.len() == 0
                || exists|i: int|
                0 <= i && i + filter.len() <= b.spec_name().len() && #[trigger] b.spec_name().subrange(
                    i,
                    i + filter.len(),
                ) == filter)),
    decreases bots.len(),
{
    if bots.len() > 0 {
        let w = bots.drop_last();
        let last = bots.last();
        lemma_listed_bots(w, filter);
        let fw = filtered(w, filter);
        let fs = filtered(bots, filter);
        assert forall|b: Bot|
            fs.contains(b) <==> (bots.contains(b) && passes_filter(b.spec_name(), filter)) by {
            lemma_passes(b.spec_name(), filter);
            if fs.contains(b) {
                let k = choose|k: int| 0 <= k < fs.len() && fs[k] == b;
                if k < fw.len() {
                    assert(fw[k] == b);
                    assert(fw.contains(b));
                    assert(w.contains(b));
                    let j = choose|j: int| 0 <= j < w.len() && w[j] == b;
                    assert(bots[j] == b);
                } else {
                    assert(b == last);
                    assert(bots[bots.len() - 1] == b);
                }
            }
            if bots.contains(b) && passes_filter(b.spec_name(), filter) {
                let j = choose|j: int| 0 <= j < bots.len() && bots[j] == b;
                if j < w.len() {
                    assert(w[j] == b);
                    assert(w.contains(b));
                    assert(fw.contains(b));
                    let k = choose|k: int| 0 <= k < fw.len() && fw[k] == b;
                    assert(fs[k] == b);
                } else {
                    assert(b == last);
                    assert(fs[fs.len() - 1] == b);
                }
            }
        }
        assert forall|b: Bot| #[trigger] fs.contains(b) <==> (bots.contains(b) && (filter.len() == 0
            || exists|i: int|
            0 <= i && i + filter.len() <= b.spec_name().len() && #[trigger] b.spec_name().subrange(
                i,
                i + filter.len(),
            ) == filter)) by {
            lemma_passes(b.spec_name(), filter);
        }
    }
}

/// The list of bots that a mention picks from.
pub struct BotList {
    bots: Rc<Vec<Bot>>,
    selected_id: Option<Uuid>,
    filter: String,
}

impl BotList {
    pub closed spec fn spec_bots(&self) -> Seq<Bot> {
        self.bots@
    }

    pub closed spec fn spec_selected(&self) -> Option<Uuid> {
        self.selected_id
    }

    pub closed spec fn spec_filter(&self) -> Seq<char> {
        self.filter@
    }

    /// The listed bots: those that pass the filter.
    pub open spec fn listed(&self) -> Seq<Bot> {
        filtered(self.spec_bots(), self.spec_filter())
    }

    /// A list of the bots, with no filter and nothing selected.
    pub fn new(bots: Rc<Vec<Bot>>) -> (r: Self)
        ensures
            r.spec_bots() == bots@,
            r.spec_selected() is None,
            r.spec_filter() == Seq::<char>::empty(),
    {
        BotList { bots, selected_id: None, filter: String::new() }
    }

    /// Sets the filter. The selection stays only when `reset_select` is
    /// false and the selected bot's name contains the new filter; otherwise
    /// the first listed bot is selected.
    pub fn set_filter(&mut self, filter: String, reset_select: bool)
        ensures
            final(self).spec_bots() == old(self).spec_bots(),
            final(self).spec_filter() == filter@,
            final(self).spec_selected() == if !reset_select && (old(self).spec_selected() matches Some(
                id,
            ) && first_with(old(self).spec_bots(), id) >= 0 && contains_chars(
                old(self).spec_bots()[first_with(old(self).spec_bots(), id)].spec_name(),
                filter@,
            )) {
                old(self).spec_selected()
            } else {
                first_id(filtered(old(self).spec_bots(), filter@))
            },
    {
        self.filter = filter;
        let keep = match self.selected_bot() {
            Some((_, name)) => str_contains(name.as_str(), self.filter.as_str()),
            None => false,
        };
        if reset_select || !keep {
            self.init_select(true);
        }
    }

    /// Selects the next listed bot, wrapping to the first.
    pub fn move_down(&mut self)
        requires
            old(self).spec_selected() matches Some(id) ==> first_with(old(self).listed(), id) >= 0,
        ensures
            final(self).spec_bots() == old(self).spec_bots(),
            final(self).spec_filter() == old(self).spec_filter(),
            final(self).spec_selected() == next_down(old(self).listed(), old(self).spec_selected()),
    {
        let selected_id = self.next_selected(&self.selected_id, false);
        self.set_selected_bot(selected_id)
    }

    /// Selects the previous listed bot, wrapping to the last.
    pub fn move_up(&mut self)
        requires
            old(self).spec_selected() matches Some(id) ==> last_with(old(self).listed(), id) >= 0,
        ensures
            final(self).spec_bots() == old(self).spec_bots(),
            final(self).spec_filter() == old(self).spec_filter(),
            final(self).spec_selected() == next_up(old(self).listed(), old(self).spec_selected()),
    {
        let selected_id = self.next_selected(&self.selected_id, true);
        self.set_selected_bot(selected_id)
    }

    /// The bot that follows `selected_id` among the listed bots, in reverse
    /// order when `reverse` holds.
    fn next_selected(&self, selected_id: &Option<Uuid>, reverse: bool) -> (r: Option<Uuid>)
        requires
            !reverse ==> (*selected_id matches Some(id) ==> first_with(self.listed(), id) >= 0),
            reverse ==> (*selected_id matches Some(id) ==> last_with(self.listed(), id) >= 0),
        ensures
            !reverse ==> r == next_down(self.listed(), *selected_id),
            reverse ==> r == next_up(self.listed(), *selected_id),
    {
        let fs = self.get_bots();
        let ghost l = self.listed();
        let n = fs.len();
        match selected_id {
            None => {
                if n == 0 {
                    None
                } else if reverse {
                    Some(*fs[n - 1].id())
                } else {
                    Some(*fs[0].id())
                }
            },
            Some(id) => {
                if !reverse {
                    proof {
                        lemma_first_with(l, *id);
                    }
                    let mut k: usize = 0;
                    while !uuid_eq(fs[k].id(), id)
                        invariant
                            fs@.map_values(|b: &Bot| *b) == l,
                            n == l.len(),
                            0 <= k <= first_with(l, *id) < n,
                            forall|j: int| 0 <= j < l.len() && j < first_with(l, *id) ==> l[j].spec_id() != *id,
                            l[first_with(l, *id)].spec_id() == *id,
                        decreases n - k,
                    {
                        assert(*fs@[k as int] == l[k as int]);
                        k += 1;
                    }
                    assert(*fs@[k as int] == l[k as int]);
                    if k + 1 < n {
                        assert(*fs@[k + 1] == l[k + 1]);
                        Some(*fs[k + 1].id())
                    } else {
                        assert(*fs@[0] == l[0]);
                        Some(*fs[0].id())
                    }
                } else {
                    proof {
                        lemma_last_with(l, *id);
                    }
                    let mut k: usize = n - 1;
                    while !uuid_eq(fs[k].id(), id)
                        invariant
                            fs@.map_values(|b: &Bot| *b) == l,
                            n == l.len(),
                            0 <= last_with(l, *id) <= k < n,
                            forall|j: int| last_with(l, *id) < j < l.len() ==> l[j].spec_id() != *id,
                            l[last_with(l, *id)].spec_id() == *id,
                        decreases k,
                    {
                        assert(*fs@[k as int] == l[k as int]);
                        k -= 1;
                    }
                    assert(*fs@[k as int] == l[k as int]);
                    if k > 0 {
                        assert(*fs@[k - 1] == l[k - 1]);
                        Some(*fs[k - 1].id())
                    } else {
                        assert(*fs@[n - 1] == l[n - 1]);
                        Some(*fs[n - 1].id())
                    }
                }
            },
        }
    }

    /// The selected bot's id and name: the first bot of the whole list with
    /// the selected id.
    pub fn selected_bot(&self) -> (r: Option<(Uuid, String)>)
        ensures
            r is Some <==> (self.spec_selected() matches Some(id) && first_with(
                self.spec_bots(),
                id,
            ) >= 0),
            r matches Some(p) ==> p.0 == self.spec_selected()->0 && p.1@ == self.spec_bots()[first_with(
                self.spec_bots(),
                self.spec_selected()->0,
            )].spec_name(),
    {
        match &self.selected_id {
            None => None,
            Some(id) => {
                let ghost bots = self.spec_bots();
                proof {
                    lemma_first_with(bots, *id);
                }
                let n = self.bots.len();
                let mut k: usize = 0;
                while k < n && !uuid_eq(self.bots[k].id(), id)
                    invariant
                        bots == self.spec_bots(),
                        n == bots.len(),
                        0 <= k <= n,
                        forall|j: int| 0 <= j < k ==> bots[j].spec_id() != *id,
                    decreases n - k,
                {
                    k += 1;
                }
                if k < n {
                    let bot = &self.bots[k];
                    proof {
                        if first_with(bots, *id) < 0 || first_with(bots, *id) > k {
                            assert(bots[k as int].spec_id() != *id);
                        }
                        if first_with(bots, *id) < k {
                            assert(bots[first_with(bots, *id)].spec_id() != *id);
                        }
                    }
                    Some((*bot.id(), String::from_str(bot.name())))
                } else {
                    proof {
                        if first_with(bots, *id) >= 0 {
                            assert(bots[first_with(bots, *id)].spec_id() != *id);
                        }
                    }
                    None
                }
            },
        }
    }

    /// The listed bots: those that pass the filter, in their order.
    pub fn get_bots(&self) -> (r: Vec<&Bot>)
        ensures
            r@.map_values(|b: &Bot| *b) == self.listed(),
    {
        let ghost bots = self.spec_bots();
        let mut r: Vec<&Bot> = Vec::new();
        let n = self.bots.len();
        let mut i: usize = 0;
        proof {
            assert(bots.take(0) =~= Seq::<Bot>::empty());
            assert(r@.map_values(|b: &Bot| *b) =~= filtered(bots.take(0), self.spec_filter()));
        }
        while i < n
            invariant
                bots == self.spec_bots(),
                n == bots.len(),
                i <= n,
                r@.map_values(|b: &Bot| *b) == filtered(bots.take(i as int), self.spec_filter()),
            decreases n - i,
        {
            let bot = &self.bots[i];
            let ghost before = r@;
            proof {
                assert(bots.take(i + 1).drop_last() =~= bots.take(i as int));
                assert(bots.take(i + 1).last() == bots[i as int]);
            }
            let passes = self.filter.as_str().is_empty() || str_contains(bot.name(), self.filter.as_str());
            if passes {
                r.push(bot);
                assert(r@.map_values(|b: &Bot| *b) =~= before.map_values(|b: &Bot| *b).push(*bot));
            } else {
                assert(r@.map_values(|b: &Bot| *b) =~= before.map_values(|b: &Bot| *b)
                    + Seq::<Bot>::empty());
            }
            i += 1;
        }
        proof {
            assert(bots.take(n as int) =~= bots);
        }
        r
    }

    pub fn set_selected_bot(&mut self, bot_id: Option<Uuid>)
        ensures
            final(self).spec_bots() == old(self).spec_bots(),
            final(self).spec_filter() == old(self).spec_filter(),
            final(self).spec_selected() == bot_id,
    {
        self.selected_id = bot_id;
    }

    /// Selects the first listed bot, unless something is selected and `force`
    /// is false.
    pub fn init_select(&mut self, force: bool)
        ensures
            final(self).spec_bots() == old(self).spec_bots(),
            final(self).spec_filter() == old(self).spec_filter(),
            final(self).spec_selected() == if old(self).spec_selected() is Some && !force {
                old(self).spec_selected()
            } else {
                first_id(old(self).listed())
            },
    {
        if self.selected_id.is_some() && !force {
            return ;
        }
        let fs = self.get_bots();
        let selected_id = if fs.len() > 0 {
            assert(*fs@[0] == self.listed()[0]);
            Some(*fs[0].id())
        } else {
            None
        };
        self.selected_id = selected_id;
    }
}

} // verus!
