//! The state of the quick launcher: the channel it talks in, the message it
//! shows and the bot picked for it.

use uuid::Uuid;
use vstd::prelude::*;

verus! {

/// The quick launcher's state.
pub struct QuickLauncher {
    pub channel_id: Uuid,
    pub msg: Option<Uuid>,
    pub selected_bot_id: Option<Uuid>,
}

impl QuickLauncher {
    /// A quick launcher for a channel, with no message and no bot picked.
    pub fn new(channel_id: Uuid) -> (r: Self)
        ensures
            r.channel_id == channel_id,
            r.msg is None,
            r.selected_bot_id is None,
    {
        QuickLauncher { channel_id, msg: None, selected_bot_id: None }
    }
}

impl Clone for QuickLauncher {
    fn clone(&self) -> (r: Self)
        ensures
            r == *self,
    {
        QuickLauncher {
            channel_id: self.channel_id,
            msg: self.msg,
            selected_bot_id: self.selected_bot_id,
        }
    }
}

} // verus!
