use polestar::model::msg::{
    ActionWarning, Msg, MsgAction, MsgBody, MsgCont, MsgMeta, MsgRole, MsgStatus,
    SwitchContWarning,
};

/// Applies an action to a content, writing down the warning it would log.
fn act(cont: MsgCont, action: MsgAction, logs: &mut Vec<String>) -> MsgCont {
    if let Some(w) = cont.action_warning(&action) {
        logs.push(w.message().to_string());
    }
    cont.action(action)
}

/// Switches the shown content, writing down the warning it would log.
fn switch(msg: &mut Msg, idx: usize, logs: &mut Vec<String>) {
    if let Some(w) = msg.switch_cont_warning(idx) {
        logs.push(w.message());
    }
    msg.switch_cont(idx);
}

fn text(s: &str) -> MsgBody {
    MsgBody::Text(Some(s.to_owned()))
}

#[test]
fn msg_update() {
    let mut logs = Vec::new();
    let mut msg = Msg::new(MsgRole::User, MsgCont::text_init(), MsgMeta::default());
    msg.add_cont(MsgCont::text_init());
    assert_eq!(msg.cur_idx(), 1);
    assert_eq!(msg.cont_count(), 2);

    switch(&mut msg, 0, &mut logs);
    assert_eq!(msg.cur_idx(), 0);

    switch(&mut msg, 3, &mut logs);
    assert_eq!(msg.cur_idx(), 0);

    assert_eq!(logs.len(), 1);
    assert_eq!(
        logs[0],
        "[polestar] switch message content error: index out of range: message's len is 2, but the index is 3"
    );
}

#[test]
fn msg_cont_action() {
    let mut logs = Vec::new();

    let fulfilled = act(
        act(MsgCont::text_init(), MsgAction::Receiving(text("123")), &mut logs),
        MsgAction::Fulfilled,
        &mut logs,
    );
    let _fulfilled_msg = Msg::new(MsgRole::User, fulfilled, MsgMeta::default());

    let rejected = act(MsgCont::text_init(), MsgAction::Rejected, &mut logs);
    let _rejected_msg = Msg::new(MsgRole::User, rejected, MsgMeta::default());

    let _pend_msg = Msg::new(MsgRole::User, MsgCont::text_init(), MsgMeta::default());

    let wrong_fulfilled = act(MsgCont::text_init(), MsgAction::Fulfilled, &mut logs);
    let _wrong_fulfilled_msg = Msg::new(MsgRole::User, wrong_fulfilled, MsgMeta::default());

    let wrong_rejected = act(
        act(MsgCont::text_init(), MsgAction::Receiving(text("123")), &mut logs),
        MsgAction::Rejected,
        &mut logs,
    );
    let _wrong_rejected_msg = Msg::new(MsgRole::User, wrong_rejected, MsgMeta::default());

    let wrong_pend = act(
        act(MsgCont::text_init(), MsgAction::Receiving(text("123")), &mut logs),
        MsgAction::Pending,
        &mut logs,
    );
    let _wrong_pend_msg = Msg::new(MsgRole::User, wrong_pend, MsgMeta::default());

    let wrong_receiving = act(
        act(MsgCont::text_init(), MsgAction::Rejected, &mut logs),
        MsgAction::Receiving(text("123")),
        &mut logs,
    );
    let _wrong_receiving_msg = Msg::new(MsgRole::User, wrong_receiving, MsgMeta::default());

    assert_eq!(logs.len(), 4);
    assert_eq!(logs[0], ActionWarning::Fulfilled.message());
    assert_eq!(logs[1], ActionWarning::Rejected.message());
    assert_eq!(logs[2], ActionWarning::Pending.message());
    assert_eq!(logs[3], ActionWarning::Receiving.message());
}

#[test]
fn action_warning_texts() {
    assert_eq!(
        ActionWarning::Pending.message(),
        "[polestar] message content action error: pending action must be rejected status"
    );
    assert_eq!(
        ActionWarning::Fulfilled.message(),
        "[polestar] message content action error: fulfilled action must be receiving status"
    );
    assert_eq!(
        ActionWarning::Rejected.message(),
        "[polestar] message content action error: rejected action must be pending status"
    );
    assert_eq!(
        ActionWarning::Receiving.message(),
        "[polestar] message content action error: receiving action must be pending status"
    );
}

#[test]
fn switch_warning_text_in_decimal() {
    let w = SwitchContWarning { len: 10, idx: 123456 };
    assert_eq!(
        w.message(),
        "[polestar] switch message content error: index out of range: message's len is 10, but the index is 123456"
    );
    let w = SwitchContWarning { len: 0, idx: 0 };
    assert_eq!(
        w.message(),
        "[polestar] switch message content error: index out of range: message's len is 0, but the index is 0"
    );
}

#[test]
fn accepted_actions_follow_the_status_steps() {
    let c = MsgCont::text_init();
    assert_eq!(*c.status(), MsgStatus::Pending);
    assert!(c.body().is_none());

    let c = c.action(MsgAction::Receiving(text("hi")));
    assert_eq!(*c.status(), MsgStatus::Receiving);
    assert_eq!(*c.body(), text("hi"));

    let c = c.action(MsgAction::Fulfilled);
    assert_eq!(*c.status(), MsgStatus::Fulfilled);
    assert_eq!(*c.body(), text("hi"));
}

#[test]
fn fulfilled_content_stays_fulfilled() {
    let mut c = MsgCont::text_init()
        .action(MsgAction::Receiving(text("done")))
        .action(MsgAction::Fulfilled);
    let actions = vec![
        MsgAction::Pending,
        MsgAction::Rejected,
        MsgAction::Receiving(text("other")),
        MsgAction::Fulfilled,
    ];
    for a in actions {
        assert!(c.action_warning(&a).is_some());
        c = c.action(a);
        assert_eq!(*c.status(), MsgStatus::Fulfilled);
        assert_eq!(*c.body(), text("done"));
    }
}

#[test]
fn rejection_and_retry_empty_the_body() {
    let c = MsgCont::from_parts(text("partial"), MsgStatus::Pending);
    let c = c.action(MsgAction::Rejected);
    assert_eq!(*c.status(), MsgStatus::Rejected);
    assert_eq!(*c.body(), MsgBody::Text(None));

    let c = MsgCont::from_parts(text("stale"), MsgStatus::Rejected);
    let c = c.action(MsgAction::Pending);
    assert_eq!(*c.status(), MsgStatus::Pending);
    assert_eq!(*c.body(), MsgBody::Text(None));
}

#[test]
fn refused_action_changes_nothing() {
    let c = MsgCont::from_parts(text("keep"), MsgStatus::Receiving);
    assert_eq!(c.action_warning(&MsgAction::Rejected), Some(ActionWarning::Rejected));
    let c = c.action(MsgAction::Rejected);
    assert_eq!(*c.status(), MsgStatus::Receiving);
    assert_eq!(*c.body(), text("keep"));
}

#[test]
fn body_presence_and_clearing() {
    let mut b = text("x");
    assert!(b.is_some());
    assert!(!b.is_none());
    b.set_none();
    assert_eq!(b, MsgBody::Text(None));
    assert!(b.is_none());
    b.set_none();
    assert_eq!(b, MsgBody::Text(None));

    let mut i = MsgBody::Image(None);
    assert!(i.is_none());
    i.set_none();
    assert_eq!(i, MsgBody::Image(None));
}

#[test]
fn add_and_switch_contents() {
    let mut msg = Msg::new(MsgRole::User, MsgCont::text_init(), MsgMeta::default());
    assert_eq!(msg.cur_idx(), 0);
    assert_eq!(msg.cont_count(), 1);
    assert!(msg.switch_cont_warning(0).is_none());
    assert_eq!(
        msg.switch_cont_warning(1),
        Some(SwitchContWarning { len: 1, idx: 1 })
    );
    msg.add_cont(MsgCont::image_init());
    msg.add_cont(MsgCont::text_init());
    assert_eq!(msg.cur_idx(), 2);
    assert_eq!(msg.cont_count(), 3);
    assert_eq!(msg.cont_list().len(), 3);
    msg.switch_cont(1);
    assert_eq!(msg.cur_idx(), 1);
    assert_eq!(*msg.cur_cont_as_ref().body(), MsgBody::Image(None));
    msg.switch_cont(7);
    assert_eq!(msg.cur_idx(), 1);
}

#[test]
fn current_content_can_be_replaced() {
    let mut msg = Msg::new(MsgRole::User, MsgCont::text_init(), MsgMeta::default());
    let cont = msg.cur_cont_as_mut();
    *cont = MsgCont::text_init().action(MsgAction::Rejected);
    assert_eq!(*msg.cur_cont_as_ref().status(), MsgStatus::Rejected);
}

#[test]
fn message_from_parts_checks_the_index() {
    let id = uuid::Uuid::new_v4();
    let none = Msg::from_parts(id, MsgRole::User, 1, vec![MsgCont::text_init()], MsgMeta::default());
    assert!(none.is_none());
    let neg = Msg::from_parts(id, MsgRole::User, -1, vec![MsgCont::text_init()], MsgMeta::default());
    assert!(neg.is_none());
    let some = Msg::from_parts(
        id,
        MsgRole::Bot(id),
        0,
        vec![MsgCont::text_init()],
        MsgMeta::new(Some(id), None),
    )
    .unwrap();
    assert_eq!(*some.id(), id);
    assert_eq!(*some.role(), MsgRole::Bot(id));
    assert_eq!(some.meta().quote_id(), Some(id));
    assert_eq!(some.meta().source_id(), None);
}

#[test]
fn new_messages_get_fresh_ids() {
    let a = Msg::new(MsgRole::User, MsgCont::text_init(), MsgMeta::default());
    let b = Msg::new(MsgRole::User, MsgCont::text_init(), MsgMeta::default());
    assert_ne!(a.id(), b.id());
}
