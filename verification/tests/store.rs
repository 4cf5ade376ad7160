use polestar::model::app_store::{AppStore, Channel};

fn names(s: &AppStore) -> Vec<&str> {
    s.channels().iter().map(|c| c.name()).collect()
}

#[test]
fn the_first_channel_added_becomes_current() {
    let mut s = AppStore::default();
    assert!(s.cur_channel_id().is_none());
    let a = Channel::new("a".to_string(), Some("first".to_string()));
    let a_id = *a.id();
    assert_eq!(a.desc(), Some("first"));
    s.add_channel(a);
    let b = Channel::new("b".to_string(), None);
    let b_id = *b.id();
    s.add_channel(b);
    assert_eq!(names(&s), vec!["a", "b"]);
    assert_eq!(s.cur_channel_id(), Some(&a_id));
    s.switch_channel(&b_id);
    assert_eq!(s.cur_channel_id(), Some(&b_id));
    s.switch_channel(&uuid::Uuid::new_v4());
    assert_eq!(s.cur_channel_id(), Some(&b_id));
}

#[test]
fn removing_the_current_channel_makes_the_first_current() {
    let mut s = AppStore::default();
    let ids: Vec<uuid::Uuid> = ["a", "b", "c"]
        .iter()
        .map(|n| {
            let c = Channel::new(n.to_string(), None);
            let id = *c.id();
            s.add_channel(c);
            id
        })
        .collect();
    s.remove_channel(&ids[1]);
    assert_eq!(names(&s), vec!["a", "c"]);
    assert_eq!(s.cur_channel_id(), Some(&ids[0]));
    s.remove_channel(&ids[0]);
    assert_eq!(names(&s), vec!["c"]);
    assert_eq!(s.cur_channel_id(), Some(&ids[2]));
    s.remove_channel(&ids[2]);
    assert!(s.channels().is_empty());
    assert!(s.cur_channel_id().is_none());
}
