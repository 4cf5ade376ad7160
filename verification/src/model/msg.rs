//! Chat messages: their contents, the status of each content and the
//! actions that move it.

use uuid::Uuid;
use vstd::prelude::*;

use crate::ext::new_v4_uuid;
use crate::text::{decimal, string_push_str, usize_text};

verus! {

/// The status of one message content.
#[derive(Debug, Clone, Copy, PartialEq, Eq, Structural)]
pub enum MsgStatus {
    /// Send message default status.
    Pending,
    /// Message has response, but not finish.
    Receiving,
    /// Message don't have receive any response and trigger error (i.e. timeout,
    /// invalid response).
    Rejected,
    /// Once message has receive response, it will be fulfilled status, and
    /// can't update to other status.
    Fulfilled,
}

/// The sender of a message.
#[derive(Debug, Clone, Copy, PartialEq, Eq)]
pub enum MsgRole {
    User,
    Bot(Uuid),
}

/// The message meta data: which message it quotes and which it answers.
#[derive(Debug, PartialEq, Eq)]
pub struct MsgMeta {
    quote_id: Option<Uuid>,
    source_id: Option<Uuid>,
}

impl MsgMeta {
    pub closed spec fn spec_quote_id(&self) -> Option<Uuid> {
        self.quote_id
    }

    pub closed spec fn spec_source_id(&self) -> Option<Uuid> {
        self.source_id
    }

    /// A meta data with the given quoted and answered messages.
    pub fn new(quote_id: Option<Uuid>, source_id: Option<Uuid>) -> (r: Self)
        ensures
            r.spec_quote_id() == quote_id,
            r.spec_source_id() == source_id,
    {
        MsgMeta { quote_id, source_id }
    }

    pub fn quote_id(&self) -> (r: Option<Uuid>)
        ensures
            r == self.spec_quote_id(),
    {
        self.quote_id
    }

    pub fn source_id(&self) -> (r: Option<Uuid>)
        ensures
            r == self.spec_source_id(),
    {
        self.source_id
    }
}

impl Default for MsgMeta {
    fn default() -> (r: Self)
        ensures
            r.spec_quote_id() is None,
            r.spec_source_id() is None,
    {
        MsgMeta { quote_id: None, source_id: None }
    }
}

/// Where the pixels of an image come from.
#[derive(Debug, PartialEq, Eq)]
pub enum ImagePath {
    Url(String),
    File(Uuid),
    Static(String),
}

/// An image in a message.
#[derive(Debug, PartialEq, Eq)]
pub struct Image {
    width: u32,
    height: u32,
    path: ImagePath,
}

impl Image {
    pub closed spec fn spec_width(&self) -> u32 {
        self.width
    }

    pub closed spec fn spec_height(&self) -> u32 {
        self.height
    }

    pub closed spec fn spec_path(&self) -> ImagePath {
        self.path
    }

    pub fn new(width: u32, height: u32, path: ImagePath) -> (r: Self)
        ensures
            r.spec_width() == width,
            r.spec_height() == height,
            r.spec_path() == path,
    {
        Image { width, height, path }
    }

    pub fn width(&self) -> (r: u32)
        ensures
            r == self.spec_width(),
    {
        self.width
    }

    pub fn height(&self) -> (r: u32)
        ensures
            r == self.spec_height(),
    {
        self.height
    }

    pub fn path(&self) -> (r: &ImagePath)
        ensures
            *r == self.spec_path(),
    {
        &self.path
    }
}

/// The body of a message content: a text or an image, either of which may be
/// absent yet.
#[derive(Debug, PartialEq, Eq)]
pub enum MsgBody {
    Text(Option<String>),
    Image(Option<Image>),
}

impl MsgBody {
    /// The body holds a value.
    pub open spec fn has_value(self) -> bool {
        match self {
            MsgBody::Text(s) => s is Some,
            MsgBody::Image(i) => i is Some,
        }
    }

    /// The same kind of body, with no value.
    pub open spec fn cleared(self) -> MsgBody {
        match self {
            MsgBody::Text(_) => MsgBody::Text(None),
            MsgBody::Image(_) => MsgBody::Image(None),
        }
    }

    pub fn is_some(&self) -> (r: bool)
        ensures
            r == self.has_value(),
    {
        match self {
            MsgBody::Text(s) => s.is_some(),
            MsgBody::Image(i) => i.is_some(),
        }
    }

    pub fn is_none(&self) -> (r: bool)
        ensures
            r == !self.has_value(),
    {
        match self {
            MsgBody::Text(s) => s.is_none(),
            MsgBody::Image(i) => i.is_none(),
        }
    }

    pub fn set_none(&mut self)
        ensures
            *final(self) == old(self).cleared(),
    {
        match self {
            MsgBody::Text(_) => *self = MsgBody::Text(None),
            MsgBody::Image(_) => *self = MsgBody::Image(None),
        }
    }
}

/// An action that drives the status of a message content.
pub enum MsgAction {
    Pending,
    Fulfilled,
    Receiving(MsgBody),
    Rejected,
}

/// The status from which an action is taken.
pub open spec fn action_source(action: MsgAction) -> MsgStatus {
    match action {
        MsgAction::Pending => MsgStatus::Rejected,
        MsgAction::Fulfilled => MsgStatus::Receiving,
        MsgAction::Receiving(_) => MsgStatus::Pending,
        MsgAction::Rejected => MsgStatus::Pending,
    }
}

/// The status that an action leads to.
pub open spec fn action_target(action: MsgAction) -> MsgStatus {
    match action {
        MsgAction::Pending => MsgStatus::Pending,
        MsgAction::Fulfilled => MsgStatus::Fulfilled,
        MsgAction::Receiving(_) => MsgStatus::Receiving,
        MsgAction::Rejected => MsgStatus::Rejected,
    }
}

/// The body after an accepted action.
pub open spec fn action_body(body: MsgBody, action: MsgAction) -> MsgBody {
    match action {
        MsgAction::Pending => body.cleared(),
        MsgAction::Fulfilled => body,
        MsgAction::Receiving(b) => b,
        MsgAction::Rejected => body.cleared(),
    }
}

/// The abstract value of a message content.
pub struct MsgContView {
    pub body: MsgBody,
    pub status: MsgStatus,
}

/// What an action makes of a content: accepted only from its source status,
/// and then it sets the body and moves to the target status; refused
/// otherwise, and then nothing changes.
pub open spec fn after_action(c: MsgContView, action: MsgAction) -> MsgContView {
    if c.status == action_source(action) {
        MsgContView { body: action_body(c.body, action), status: action_target(action) }
    } else {
        c
    }
}

/// Why an action was refused; each one names the status it needs.
#[derive(Debug, Clone, Copy, PartialEq, Eq, Structural)]
pub enum ActionWarning {
    /// A pending action must start from the rejected status.
    Pending,
    /// A fulfilled action must start from the receiving status.
    Fulfilled,
    /// A rejected action must start from the pending status.
    Rejected,
    /// A receiving action must start from the pending status.
    Receiving,
}

/// The warning that goes with each action.
pub open spec fn warning_of(action: MsgAction) -> ActionWarning {
    match action {
        MsgAction::Pending => ActionWarning::Pending,
        MsgAction::Fulfilled => ActionWarning::Fulfilled,
        MsgAction::Receiving(_) => ActionWarning::Receiving,
        MsgAction::Rejected => ActionWarning::Rejected,
    }
}

impl ActionWarning {
    /// The text that is logged for this warning.
    pub fn message(&self) -> (r: &'static str)
        ensures
            *self == ActionWarning::Pending ==> r@
                == "[polestar] message content action error: pending action must be rejected status"@,
            *self == ActionWarning::Fulfilled ==> r@
                == "[polestar] message content action error: fulfilled action must be receiving status"@,
            *self == ActionWarning::Rejected ==> r@
                == "[polestar] message content action error: rejected action must be pending status"@,
            *self == ActionWarning::Receiving ==> r@
                == "[polestar] message content action error: receiving action must be pending status"@,
    {
        match self {
            ActionWarning::Pending =>
                "[polestar] message content action error: pending action must be rejected status",
            ActionWarning::Fulfilled =>
                "[polestar] message content action error: fulfilled action must be receiving status",
            ActionWarning::Rejected =>
                "[polestar] message content action error: rejected action must be pending status",
            ActionWarning::Receiving =>
                "[polestar] message content action error: receiving action must be pending status",
        }
    }
}

/// One content of a message: its body and its status.
#[derive(Debug)]
pub struct MsgCont {
    body: MsgBody,
    status: MsgStatus,
}

impl View for MsgCont {
    type V = MsgContView;

    closed spec fn view(&self) -> MsgContView {
        MsgContView { body: self.body, status: self.status }
    }
}

impl MsgCont {
    /// A content from its parts.
    pub fn from_parts(body: MsgBody, status: MsgStatus) -> (r: Self)
        ensures
            r@ == (MsgContView { body, status }),
    {
        MsgCont { body, status }
    }

    /// An empty pending text content.
    pub fn text_init() -> (r: Self)
        ensures
            r@ == (MsgContView { body: MsgBody::Text(None), status: MsgStatus::Pending }),
    {
        MsgCont { body: MsgBody::Text(None), status: MsgStatus::Pending }
    }

    /// An empty pending image content.
    pub fn image_init() -> (r: Self)
        ensures
            r@ == (MsgContView { body: MsgBody::Image(None), status: MsgStatus::Pending }),
    {
        MsgCont { body: MsgBody::Image(None), status: MsgStatus::Pending }
    }

    /// Applies an action; a refused action leaves the content as it was.
    pub fn action(self, action: MsgAction) -> (r: Self)
        ensures
            r@ == after_action(self@, action),
    {
        let mut this = self;
        match action {
            MsgAction::Pending => {
                if this.status != MsgStatus::Rejected {
                    return this;
                }
                this.body.set_none();
                this.status = MsgStatus::Pending;
            },
            MsgAction::Fulfilled => {
                if this.status != MsgStatus::Receiving {
                    return this;
                }
                this.status = MsgStatus::Fulfilled;
            },
            MsgAction::Receiving(body) => {
                if this.status != MsgStatus::Pending {
                    return this;
                }
                this.body = body;
                this.status = MsgStatus::Receiving;
            },
            MsgAction::Rejected => {
                if this.status != MsgStatus::Pending {
                    return this;
                }
                this.body.set_none();
                this.status = MsgStatus::Rejected;
            },
        }
        this
    }

    /// The warning that `action` would log: `None` exactly when the action
    /// is accepted.
    pub fn action_warning(&self, action: &MsgAction) -> (r: Option<ActionWarning>)
        ensures
            r is None <==> self@.status == action_source(*action),
            r is Some ==> r == Some(warning_of(*action)),
    {
        let accepted = match action {
            MsgAction::Pending => self.status == MsgStatus::Rejected,
            MsgAction::Fulfilled => self.status == MsgStatus::Receiving,
            MsgAction::Receiving(_) => self.status == MsgStatus::Pending,
            MsgAction::Rejected => self.status == MsgStatus::Pending,
        };
        if accepted {
            None
        } else {
            match action {
                MsgAction::Pending => Some(ActionWarning::Pending),
                MsgAction::Fulfilled => Some(ActionWarning::Fulfilled),
                MsgAction::Receiving(_) => Some(ActionWarning::Receiving),
                MsgAction::Rejected => Some(ActionWarning::Rejected),
            }
        }
    }

    pub fn body(&self) -> (r: &MsgBody)
        ensures
            *r == self@.body,
    {
        &self.body
    }

    pub fn status(&self) -> (r: &MsgStatus)
        ensures
            *r == self@.status,
    {
        &self.status
    }
}


/// The abstract value of a message.
pub struct MsgView {
    pub id: Uuid,
    pub role: MsgRole,
    pub cur_idx: int,
    pub cont_list: Seq<MsgCont>,
    pub meta: MsgMeta,
}

/// A message: its sender, the list of its contents and which of them is shown.
#[derive(Debug)]
pub struct Msg {
    id: Uuid,
    role: MsgRole,
    cur_idx: i32,
    cont_list: Vec<MsgCont>,
    meta: MsgMeta,
}

impl View for Msg {
    type V = MsgView;

    closed spec fn view(&self) -> MsgView {
        MsgView {
            id: self.id,
            role: self.role,
            cur_idx: self.cur_idx as int,
            cont_list: self.cont_list@,
            meta: self.meta,
        }
    }
}

/// A message is well formed when the shown content exists and every index of
/// a content fits the stored index type.
pub open spec fn msg_wf(m: MsgView) -> bool {
    &&& 0 <= m.cur_idx < m.cont_list.len()
    &&& m.cont_list.len() <= i32::MAX
}

impl Msg {
    /// A message of one content, shown.
    pub fn new(role: MsgRole, cont: MsgCont, meta: MsgMeta) -> (r: Self)
        ensures
            r@.role == role,
            r@.cur_idx == 0,
            r@.cont_list == seq![cont],
            r@.meta == meta,
            msg_wf(r@),
    {
        let mut cont_list = Vec::new();
        cont_list.push(cont);
        Msg { id: new_v4_uuid(), role, cur_idx: 0, cont_list, meta }
    }

    /// A message from its stored parts; `None` when the shown index does not
    /// name a content.
    pub fn from_parts(
        id: Uuid,
        role: MsgRole,
        cur_idx: i32,
        cont_list: Vec<MsgCont>,
        meta: MsgMeta,
    ) -> (r: Option<Self>)
        ensures
            r is Some <==> (0 <= cur_idx && (cur_idx as int) < cont_list@.len()
                && cont_list@.len() <= i32::MAX),
            r matches Some(m) ==> msg_wf(m@),
            r matches Some(m) ==> m@ == (MsgView {
                id,
                role,
                cur_idx: cur_idx as int,
                cont_list: cont_list@,
                meta,
            }),
    {
        if 0 <= cur_idx && (cur_idx as usize) < cont_list.len() && cont_list.len() <= 0x7fff_ffffusize {
            Some(Msg { id, role, cur_idx, cont_list, meta })
        } else {
            None
        }
    }

    #[inline]
    pub fn id(&self) -> (r: &Uuid)
        ensures
            *r == self@.id,
    {
        &self.id
    }

    /// The index of the shown content, as a `usize`.
    #[inline]
    pub fn cur_idx(&self) -> (r: usize)
        ensures
            r == self@.cur_idx as usize,
            msg_wf(self@) ==> r == self@.cur_idx && r < self@.cont_list.len(),
    {
        self.cur_idx as usize
    }

    #[inline]
    pub fn role(&self) -> (r: &MsgRole)
        ensures
            *r == self@.role,
    {
        &self.role
    }

    #[inline]
    pub fn cur_cont_as_ref(&self) -> (r: &MsgCont)
        requires
            0 <= self@.cur_idx < self@.cont_list.len(),
        ensures
            *r == self@.cont_list[self@.cur_idx],
    {
        &self.cont_list[self.cur_idx as usize]
    }

    #[inline]
    pub fn cur_cont_as_mut(&mut self) -> (r: &mut MsgCont)
        requires
            0 <= old(self)@.cur_idx < old(self)@.cont_list.len(),
        ensures
            *r == old(self)@.cont_list[old(self)@.cur_idx],
            final(self)@ == (MsgView {
                cont_list: old(self)@.cont_list.update(old(self)@.cur_idx, *final(r)),
                ..old(self)@
            }),
    {
        let i = self.cur_idx as usize;
        &mut self.cont_list[i]
    }

    #[inline]
    pub fn meta(&self) -> (r: &MsgMeta)
        ensures
            *r == self@.meta,
    {
        &self.meta
    }

    #[inline]
    pub fn cont_list(&self) -> (r: &Vec<MsgCont>)
        ensures
            r@ == self@.cont_list,
    {
        &self.cont_list
    }

    /// Appends a content and shows it.
    #[inline]
    pub fn add_cont(&mut self, cont: MsgCont)
        ensures
            final(self)@ == (MsgView {
                cur_idx: (old(self)@.cont_list.len() as i32) as int,
                cont_list: old(self)@.cont_list.push(cont),
                ..old(self)@
            }),
            old(self)@.cont_list.len() < i32::MAX ==> msg_wf(final(self)@),
            old(self)@.cont_list.len() < i32::MAX ==> final(self)@.cur_idx == old(
                self,
            )@.cont_list.len(),
    {
        let last_idx = self.cont_list.len();
        self.cont_list.push(cont);
        self.cur_idx = last_idx as i32;
    }

    /// Shows the content at `idx`; an index out of range changes nothing.
    pub fn switch_cont(&mut self, idx: usize)
        ensures
            msg_wf(old(self)@) ==> msg_wf(final(self)@),
            idx < old(self)@.cont_list.len() ==> final(self)@ == (MsgView {
                cur_idx: (idx as i32) as int,
                ..old(self)@
            }),
            idx < old(self)@.cont_list.len() && msg_wf(old(self)@) ==> final(self)@.cur_idx == idx,
            idx >= old(self)@.cont_list.len() ==> final(self)@ == old(self)@,
    {
        let len = self.cont_list.len();
        if idx >= len {
            return ;
        }
        self.cur_idx = idx as i32;
    }

    /// The warning that `switch_cont(idx)` would log: `None` exactly when
    /// `idx` names a content.
    pub fn switch_cont_warning(&self, idx: usize) -> (r: Option<SwitchContWarning>)
        ensures
            r is None <==> idx < self@.cont_list.len(),
            r matches Some(w) ==> w.len == self@.cont_list.len() && w.idx == idx,
    {
        let len = self.cont_list.len();
        if idx >= len {
            Some(SwitchContWarning { len, idx })
        } else {
            None
        }
    }

    #[inline]
    pub fn cont_count(&self) -> (r: usize)
        ensures
            r == self@.cont_list.len(),
    {
        self.cont_list.len()
    }
}

/// A content index that is out of range for a message.
#[derive(Debug, Clone, Copy, PartialEq, Eq, Structural)]
pub struct SwitchContWarning {
    pub len: usize,
    pub idx: usize,
}

impl SwitchContWarning {
    /// The text that is logged for this warning.
    pub fn message(&self) -> (r: String)
        ensures
            r@ == "[polestar] switch message content error: index out of range: message's len is "@
                + decimal(self.len as nat) + ", but the index is "@ + decimal(self.idx as nat),
    {
        let mut r = String::from_str(
            "[polestar] switch message content error: index out of range: message's len is ",
        );
        string_push_str(&mut r, usize_text(self.len).as_str());
        string_push_str(&mut r, ", but the index is ");
        string_push_str(&mut r, usize_text(self.idx).as_str());
        r
    }
}

/// The status changes that actions allow: a pending content starts to
/// receive or is rejected, a receiving one is fulfilled, and a rejected one
/// is pending again.
pub open spec fn status_step(from: MsgStatus, to: MsgStatus) -> bool {
    ||| from == MsgStatus::Pending && to == MsgStatus::Receiving
    ||| from == MsgStatus::Pending && to == MsgStatus::Rejected
    ||| from == MsgStatus::Receiving && to == MsgStatus::Fulfilled
    ||| from == MsgStatus::Rejected && to == MsgStatus::Pending
}

/// What a series of actions makes of a content, applied in order.
pub open spec fn after_actions(c: MsgContView, actions: Seq<MsgAction>) -> MsgContView
    decreases actions.len(),
{
    if actions.len() == 0 {
        c
    } else {
        after_action(after_actions(c, actions.drop_last()), actions.last())
    }
}

/// An action changes a content only when it is accepted, and then moves its
/// status along one of the allowed steps; a refused action leaves it whole.
/// A rejected or pending action empties the body, a receiving one puts its
/// body in, and a fulfilled one keeps the body.
pub proof fn lemma_action_step(c: MsgContView, action: MsgAction)
    ensures
        ({
            let r = after_action(c, action);
            &&& c.status != action_source(action) ==> r == c
            &&& c.status == action_source(action) ==> status_step(c.status, r.status)
            &&& c.status == action_source(action) ==> r.status == action_target(action)
            &&& c.status == action_source(action) ==> match action {
                MsgAction::Pending => !r.body.has_value(),
                MsgAction::Rejected => !r.body.has_value(),
                MsgAction::Receiving(b) => r.body == b,
                MsgAction::Fulfilled => r.body == c.body,
            }
        }),
{
}

/// A fulfilled content stays as it is, whatever actions follow.
pub proof fn lemma_fulfilled_final(c: MsgContView, actions: Seq<MsgAction>)
    requires
        c.status == MsgStatus::Fulfilled,
    ensures
        after_actions(c, actions) == c,
    decreases actions.len(),
{
    if actions.len() > 0 {
        lemma_fulfilled_final(c, actions.drop_last());
    }
}

/// Each action of a series either leaves the status as it was or moves it
/// along one of the allowed steps.
pub proof fn lemma_actions_steps(c: MsgContView, actions: Seq<MsgAction>, i: int)
    requires
        0 < i <= actions.len(),
    ensures
        ({
            let before = after_actions(c, actions.take(i - 1));
            let after = after_actions(c, actions.take(i));
            before.status == after.status || status_step(before.status, after.status)
        }),
{
    let t = actions.take(i);
    assert(t.drop_last() =~= actions.take(i - 1));
}

/// Emptying a body keeps its kind, leaves no value, and emptying it again
/// changes nothing.
pub proof fn lemma_cleared(b: MsgBody)
    ensures
        !b.cleared().has_value(),
        b.cleared().cleared() == b.cleared(),
        (b is Text) == (b.cleared() is Text),
{
}

} // verus!
