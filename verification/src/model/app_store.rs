//! The channels of the command line and which of them is current.

use uuid::Uuid;
use vstd::prelude::*;

use crate::ext::{new_v4_uuid, uuid_eq};

verus! {

broadcast use vstd::seq::group_seq_axioms;

/// A channel: where a conversation with the bots takes place.
pub struct Channel {
    id: Uuid,
    name: String,
    desc: Option<String>,
}

impl Channel {
    pub closed spec fn spec_id(&self) -> Uuid {
        self.id
    }

    pub closed spec fn spec_name(&self) -> Seq<char> {
        self.name@
    }

    pub closed spec fn spec_desc(&self) -> Option<Seq<char>> {
        match self.desc {
            Some(d) => Some(d@),
            None => None,
        }
    }

    /// A channel with a fresh id.
    pub fn new(name: String, desc: Option<String>) -> (r: Self)
        ensures
            r.spec_name() == name@,
            r.spec_desc() == (match desc {
                Some(d) => Some(d@),
                None => None,
            }),
    {
        Channel { id: new_v4_uuid(), name, desc }
    }

    pub fn id(&self) -> (r: &Uuid)
        ensures
            *r == self.spec_id(),
    {
        &self.id
    }

    pub fn name(&self) -> (r: &str)
        ensures
            r@ == self.spec_name(),
    {
        self.name.as_str()
    }

    pub fn desc(&self) -> (r: Option<&str>)
        ensures
            r matches Some(d) ==> self.spec_desc() == Some(d@),
            r is None ==> self.spec_desc() is None,
    {
        match &self.desc {
            Some(d) => Some(d.as_str()),
            None => None,
        }
    }
}

/// The ids of the channels, in order.
pub open spec fn channel_ids(cs: Seq<Channel>) -> Seq<Uuid> {
    cs.map_values(|c: Channel| c.spec_id())
}

/// The channels whose id is not `id`, in order.
pub open spec fn without(cs: Seq<Channel>, id: Uuid) -> Seq<Channel> {
    cs.filter(|c: Channel| c.spec_id() != id)
}

/// The channels and the current one.
pub struct AppStore {
    channels: Vec<Channel>,
    cur_channel_id: Option<Uuid>,
}

impl AppStore {
    pub closed spec fn spec_channels(&self) -> Seq<Channel> {
        self.channels@
    }

    pub closed spec fn spec_cur(&self) -> Option<Uuid> {
        self.cur_channel_id
    }

    pub fn channels(&self) -> (r: &[Channel])
        ensures
            r@ == self.spec_channels(),
    {
        self.channels.as_slice()
    }

    pub fn cur_channel_id(&self) -> (r: Option<&Uuid>)
        ensures
            r matches Some(id) ==> self.spec_cur() == Some(*id),
            r is None ==> self.spec_cur() is None,
    {
        match &self.cur_channel_id {
            Some(id) => Some(id),
            None => None,
        }
    }

    /// Adds a channel at the end; it becomes current when none is.
    pub fn add_channel(&mut self, channel: Channel)
        ensures
            final(self).spec_channels() == old(self).spec_channels().push(channel),
            final(self).spec_cur() == if old(self).spec_cur() is None {
                Some(channel.spec_id())
            } else {
                old(self).spec_cur()
            },
    {
        if self.cur_channel_id.is_none() {
            self.cur_channel_id = Some(channel.id);
        }
        self.channels.push(channel);
    }

    /// Removes the channels with the id; when the current one goes, the
    /// first channel left becomes current, or none.
    pub fn remove_channel(&mut self, id: &Uuid)
        ensures
            final(self).spec_channels() == without(old(self).spec_channels(), *id),
            final(self).spec_cur() == if old(self).spec_cur() == Some(*id) {
                if without(old(self).spec_channels(), *id).len() > 0 {
                    Some(without(old(self).spec_channels(), *id)[0].spec_id())
                } else {
                    None
                }
            } else {
                old(self).spec_cur()
            },
    {
        let ghost all = self.channels@;
        let mut rest: Vec<Channel> = Vec::new();
        std::mem::swap(&mut rest, &mut self.channels);
        let mut kept: Vec<Channel> = Vec::new();
        proof {
            assert(rest@ =~= all.skip(0));
            reveal(Seq::filter);
            assert(all.take(0) =~= Seq::<Channel>::empty());
        }
        let n = rest.len();
        while rest.len() > 0
            invariant
                n == all.len(),
                rest.len() <= n,
                rest@ =~= all.skip(n - rest.len()),
                kept@ == without(all.take(n - rest.len()), *id),
            decreases rest.len(),
        {
            let ghost i = n - rest.len();
            let ghost before = rest@;
            let c = rest.remove(0);
            proof {
                reveal(Seq::filter);
                assert(before[0] == all[i]);
                assert(all.take(i + 1).drop_last() =~= all.take(i));
                assert(all.take(i + 1).last() == all[i]);
                assert(rest@ =~= all.skip(i + 1));
            }
            if !uuid_eq(&c.id, id) {
                kept.push(c);
            }
        }
        proof {
            assert(all.take(n as int) =~= all);
        }
        self.channels = kept;
        let is_cur = match &self.cur_channel_id {
            Some(cur) => uuid_eq(cur, id),
            None => false,
        };
        if is_cur {
            self.cur_channel_id = if self.channels.len() > 0 {
                Some(self.channels[0].id)
            } else {
                None
            };
        }
    }

    /// Makes the channel with the id current, when there is one.
    pub fn switch_channel(&mut self, id: &Uuid)
        ensures
            final(self).spec_channels() == old(self).spec_channels(),
            final(self).spec_cur() == if channel_ids(old(self).spec_channels()).contains(*id) {
                Some(*id)
            } else {
                old(self).spec_cur()
            },
    {
        let ghost ids = channel_ids(self.channels@);
        let n = self.channels.len();
        let mut i: usize = 0;
        while i < n
            invariant
                n == self.channels@.len(),
                ids == channel_ids(self.channels@),
                self.channels@ == old(self).channels@,
                self.cur_channel_id == old(self).cur_channel_id,
                i <= n,
                forall|j: int| 0 <= j < i ==> ids[j] != *id,
            decreases n - i,
        {
            if uuid_eq(&self.channels[i].id, id) {
                proof {
                    assert(ids[i as int] == *id);
                }
                self.cur_channel_id = Some(*id);
                return;
            }
            i += 1;
        }
        proof {
            if ids.contains(*id) {
                let j = choose|j: int| 0 <= j < ids.len() && ids[j] == *id;
                assert(ids[j] != *id);
            }
        }
    }
}

impl Default for AppStore {
    fn default() -> (r: Self)
        ensures
            r.spec_channels() == Seq::<Channel>::empty(),
            r.spec_cur() is None,
    {
        AppStore { channels: Vec::new(), cur_channel_id: None }
    }
}

} // verus!
