use std::collections::HashMap;
use std::rc::Rc;

use polestar::model::bot::{Bot, Lang};
use polestar::widgets::bot_list::BotList;
use polestar::widgets::editor::{
    deal_chars, deal_copy_paste, deal_delete, editor_event, question, select_bot, typed_chars,
    update_bot_list, EditorAction, EditorEvent, CaretPosition, CaretState, ClipboardKey, DeleteKey,
    EditedMessage, GlyphPosition, MessageEditor, MessageFragment, MoveDirection,
};

const BOT_ID: &str = "a1a2a3a4-b1b2-c1c2-d1d2-d3d4d5d6d7d8";

fn caret(cluster: usize) -> CaretState {
    CaretState::Caret(CaretPosition { cluster, position: None })
}

fn greeting() -> EditedMessage {
    EditedMessage {
        fragments: vec![
            MessageFragment::Text("Hello ".to_string()),
            MessageFragment::Bot { bot_id: BOT_ID.to_string(), name: "Ribir".to_string() },
            MessageFragment::Text("nice to see you!".to_string()),
        ],
    }
}

#[test]
fn message_editor_caret() {
    let mut editor = MessageEditor {
        edit_message: EditedMessage {
            fragments: vec![
                MessageFragment::Text("Hello ".to_string()),
                MessageFragment::Bot {
                    bot_id: "a1a2a3a4-b1b2-c1c2-d1d2-d3d4d5d6d7d8".to_string(),
                    name: "Ribir".to_string(),
                },
                MessageFragment::Text("nice to see you!".to_string()),
            ],
        },
        caret: CaretState::default(),
    };

    assert_eq!(editor.display_text(), "Hello @ Ribir nice to see you!");
    editor.set_caret_with_check(CaretState::Caret(CaretPosition { cluster: 6, position: None }));
    assert_eq!(CaretState::Caret(CaretPosition { cluster: 6, position: None }), editor.caret);

    editor.update_caret_by_move(
        CaretState::Caret(CaretPosition { cluster: 7, position: None }),
        MoveDirection::Right,
    );
    assert_eq!(CaretState::Caret(CaretPosition { cluster: 14, position: None }), editor.caret);

    editor.update_caret_by_move(
        CaretState::Caret(CaretPosition { cluster: 13, position: None }),
        MoveDirection::Left,
    );
    assert_eq!(CaretState::Caret(CaretPosition { cluster: 6, position: None }), editor.caret);

    editor.set_caret_with_check(CaretState::Caret(CaretPosition { cluster: 8, position: None }));
    assert_eq!(CaretState::Caret(CaretPosition { cluster: 14, position: None }), editor.caret);
}

#[test]
fn message_edit() {
    let mut messages = EditedMessage {
        fragments: vec![MessageFragment::Text("Hello nice to see you!".to_string())],
    };

    let cursor = messages.insert_bot(
        6,
        "a1a2a3a4-b1b2-c1c2-d1d2-d3d4d5d6d7d8".to_string(),
        "Ribir".to_string(),
    );

    assert_eq!(cursor, 14);

    messages.insert_str(cursor, ", ");

    assert_eq!(messages.display_message(), "Hello @ Ribir , nice to see you!");
    assert_eq!(messages.message_content(), "Hello , nice to see you!");
    assert_eq!(messages.fragments.len(), 3);

    messages.delete(5..15);
    assert_eq!(messages.message_content(), "Hello nice to see you!");
    assert_eq!(messages.fragments.len(), 1);

    messages.delete(0..25);
    assert_eq!(messages.display_message(), "");
    assert_eq!(messages.fragments.len(), 1);
}

#[test]
fn default_message_is_one_empty_text() {
    let m = EditedMessage::default();
    assert_eq!(m.fragments.len(), 1);
    assert!(m.fragments[0].is_text());
    assert_eq!(m.display_message(), "");
    assert_eq!(m.message_content(), "");
    assert!(m.related_bot().is_empty());
}

#[test]
fn fragment_display() {
    let t = MessageFragment::Text("abc".to_string());
    let b = MessageFragment::Bot { bot_id: "x".to_string(), name: "Ann".to_string() };
    assert_eq!(t.display_text(), "abc");
    assert_eq!(b.display_text(), "@ Ann ");
    assert!(t.is_text() && !t.is_bot());
    assert!(b.is_bot() && !b.is_text());
    assert_eq!(b.clone_fragment().display_text(), "@ Ann ");
}

#[test]
fn content_and_related_bots() {
    let mut m = greeting();
    m.insert_bot(0, "first".to_string(), "A".to_string());
    assert_eq!(m.display_message(), "@ A Hello @ Ribir nice to see you!");
    assert_eq!(m.message_content(), "Hello nice to see you!");
    assert_eq!(m.related_bot(), vec!["first".to_string(), BOT_ID.to_string()]);
}

#[test]
fn position_finds_fragment_and_offset() {
    let m = greeting();
    assert_eq!(m.position(0), (0, 0));
    assert_eq!(m.position(6), (0, 6));
    assert_eq!(m.position(7), (1, 1));
    assert_eq!(m.position(14), (1, 8));
    assert_eq!(m.position(15), (2, 1));
    assert_eq!(m.position(30), (2, 16));
    assert_eq!(m.position(99), (2, 16));
}

#[test]
fn validated_cursor_leaves_mentions() {
    let m = greeting();
    assert_eq!(m.validate_cursor_position(3, MoveDirection::Left), 3);
    assert_eq!(m.validate_cursor_position(6, MoveDirection::Right), 6);
    assert_eq!(m.validate_cursor_position(9, MoveDirection::Left), 6);
    assert_eq!(m.validate_cursor_position(9, MoveDirection::Right), 14);
    assert_eq!(m.validate_cursor_position(14, MoveDirection::Left), 14);
    assert_eq!(m.validate_cursor_position(30, MoveDirection::Left), 30);
    assert_eq!(m.validate_cursor_position(31, MoveDirection::Left), 30);
    for c in 0..40 {
        for d in [MoveDirection::Left, MoveDirection::Right] {
            let once = m.validate_cursor_position(c, d);
            assert!(once <= 30);
            assert!(!(6 < once && once < 14));
            assert_eq!(m.validate_cursor_position(once, MoveDirection::Left), once);
            assert_eq!(m.validate_cursor_position(once, MoveDirection::Right), once);
        }
    }
}

#[test]
fn insert_in_mention_goes_after_it() {
    let mut m = greeting();
    let c = m.insert_str(9, "X");
    assert_eq!(c, 15);
    assert_eq!(m.display_message(), "Hello @ Ribir Xnice to see you!");
    assert_eq!(m.fragments.len(), 3);
}

#[test]
fn insert_text_is_spliced_at_the_cursor() {
    let mut m = greeting();
    let c = m.insert_str(2, "y");
    assert_eq!(c, 3);
    assert_eq!(m.display_message(), "Heyllo @ Ribir nice to see you!");
    assert_eq!(m.related_bot(), vec![BOT_ID.to_string()]);
}

#[test]
fn insert_bot_after_mention() {
    let mut m = greeting();
    let c = m.insert_bot(10, "b2".to_string(), "Zed".to_string());
    assert_eq!(c, 20);
    assert_eq!(m.display_message(), "Hello @ Ribir @ Zed nice to see you!");
    assert_eq!(m.message_content(), "Hello nice to see you!");
    assert_eq!(m.fragments.len(), 4);
}

#[test]
fn insert_bot_at_end_of_text_keeps_no_empty_tail() {
    let mut m = EditedMessage { fragments: vec![MessageFragment::Text("hi".to_string())] };
    let c = m.insert_bot(2, "b".to_string(), "B".to_string());
    assert_eq!(c, 6);
    assert_eq!(m.fragments.len(), 2);
    assert_eq!(m.display_message(), "hi@ B ");
}

#[test]
fn delete_widens_to_a_cut_mention() {
    let mut m = greeting();
    let c = m.delete(8..10);
    assert_eq!(c, 6);
    assert_eq!(m.display_message(), "Hello nice to see you!");
    assert_eq!(m.fragments.len(), 1);

    let mut m = greeting();
    let c = m.delete(3..8);
    assert_eq!(c, 3);
    assert_eq!(m.display_message(), "Helnice to see you!");
    assert!(m.related_bot().is_empty());

    let mut m = greeting();
    let c = m.delete(12..16);
    assert_eq!(c, 6);
    assert_eq!(m.display_message(), "Hello ce to see you!");
}

#[test]
fn delete_inside_text_and_empty_selection() {
    let mut m = greeting();
    let c = m.delete(15..20);
    assert_eq!(c, 15);
    assert_eq!(m.display_message(), "Hello @ Ribir no see you!");
    assert_eq!(m.fragments.len(), 3);

    let c = m.delete(4..4);
    assert_eq!(c, 4);
    assert_eq!(m.display_message(), "Hello @ Ribir no see you!");
}

#[test]
fn delete_past_the_end() {
    let mut m = greeting();
    let c = m.delete(40..50);
    assert_eq!(c, 40);
    assert_eq!(m.display_message(), "Hello @ Ribir nice to see you!");
}

#[test]
fn editor_types_over_the_selection() {
    let mut e = MessageEditor::new();
    e.insert_str("hello world");
    assert_eq!(e.display_text(), "hello world");
    assert_eq!(e.caret, caret(11));
    e.caret = CaretState::Select(
        CaretPosition { cluster: 5, position: None },
        CaretPosition { cluster: 0, position: None },
    );
    e.insert_str("bye");
    assert_eq!(e.display_text(), "bye world");
    assert_eq!(e.caret, caret(3));
}

#[test]
fn editor_delete_moves_the_caret() {
    let mut e = MessageEditor { edit_message: greeting(), caret: caret(20) };
    e.delete(8..10);
    assert_eq!(e.caret, caret(6));
    e.delete(3..3);
    assert_eq!(e.caret, caret(6));
    e.reset();
    assert_eq!(e.display_text(), "");
    assert_eq!(e.caret, caret(0));
}

#[test]
fn editor_mentions_at_the_selection_start() {
    let mut e = MessageEditor {
        edit_message: EditedMessage { fragments: vec![MessageFragment::Text("ab".to_string())] },
        caret: CaretState::Select(
            CaretPosition { cluster: 2, position: None },
            CaretPosition { cluster: 1, position: None },
        ),
    };
    e.insert_bot("id".to_string(), "Q".to_string());
    assert_eq!(e.display_text(), "a@ Q b");
    assert_eq!(e.caret, caret(5));
}

#[test]
fn bot_hint_reads_back_to_the_last_at() {
    let e = MessageEditor {
        edit_message: EditedMessage {
            fragments: vec![MessageFragment::Text("ask @al@Ri please".to_string())],
        },
        caret: caret(10),
    };
    assert_eq!(e.bot_hint(), Some("@Ri".to_string()));

    let e = MessageEditor {
        edit_message: EditedMessage { fragments: vec![MessageFragment::Text("no hint".to_string())] },
        caret: caret(4),
    };
    assert_eq!(e.bot_hint(), None);

    let e = MessageEditor { edit_message: greeting(), caret: caret(10) };
    assert_eq!(e.bot_hint(), None);

    let e = MessageEditor {
        edit_message: EditedMessage { fragments: vec![MessageFragment::Text("@x".to_string())] },
        caret: CaretState::Selecting(
            CaretPosition { cluster: 0, position: None },
            CaretPosition { cluster: 2, position: None },
        ),
    };
    assert_eq!(e.bot_hint(), None);
}

#[test]
fn moving_keeps_the_anchor_and_drawn_position() {
    let drawn = Some(GlyphPosition { row: 0, col: 3 });
    let mut e = MessageEditor { edit_message: greeting(), caret: caret(0) };
    let anchor = CaretPosition { cluster: 2, position: drawn };
    e.update_caret_by_move(
        CaretState::Select(anchor, CaretPosition { cluster: 10, position: drawn }),
        MoveDirection::Left,
    );
    assert_eq!(
        e.caret,
        CaretState::Select(anchor, CaretPosition { cluster: 6, position: None })
    );
    e.update_caret_by_move(CaretState::Caret(CaretPosition { cluster: 3, position: drawn }), MoveDirection::Left);
    assert_eq!(e.caret, CaretState::Caret(CaretPosition { cluster: 3, position: drawn }));
}

#[test]
fn checked_selection_widens_over_mentions() {
    let mut e = MessageEditor { edit_message: greeting(), caret: caret(0) };
    e.set_caret_with_check(CaretState::Select(
        CaretPosition { cluster: 8, position: None },
        CaretPosition { cluster: 20, position: None },
    ));
    assert_eq!(
        e.caret,
        CaretState::Select(
            CaretPosition { cluster: 6, position: None },
            CaretPosition { cluster: 20, position: None },
        )
    );
    e.set_caret_with_check(CaretState::Selecting(
        CaretPosition { cluster: 12, position: None },
        CaretPosition { cluster: 2, position: None },
    ));
    assert_eq!(
        e.caret,
        CaretState::Selecting(
            CaretPosition { cluster: 14, position: None },
            CaretPosition { cluster: 2, position: None },
        )
    );
}

#[test]
fn caret_ranges() {
    assert_eq!(caret(4).select_range(), 4..4);
    assert_eq!(caret(4).cluster(), 4);
    let s = CaretState::Select(
        CaretPosition { cluster: 9, position: None },
        CaretPosition { cluster: 2, position: None },
    );
    assert_eq!(s.select_range(), 2..9);
    assert_eq!(s.cluster(), 2);
    assert_eq!(CaretPosition::default(), CaretPosition { cluster: 0, position: None });
}

fn select(a: usize, b: usize) -> CaretState {
    CaretState::Select(
        CaretPosition { cluster: a, position: None },
        CaretPosition { cluster: b, position: None },
    )
}

fn text_editor(text: &str, caret: CaretState) -> MessageEditor {
    MessageEditor {
        edit_message: EditedMessage { fragments: vec![MessageFragment::Text(text.to_string())] },
        caret,
    }
}

#[test]
fn backspace_deletes_the_character_before_the_caret() {
    let mut e = text_editor("añb", caret(3));
    assert!(deal_delete(&mut e, DeleteKey::Backspace));
    assert_eq!(e.display_text(), "ab");
    assert_eq!(e.caret, caret(1));

    assert!(deal_delete(&mut e, DeleteKey::Backspace));
    assert_eq!(e.display_text(), "b");
    assert_eq!(e.caret, caret(0));

    assert!(deal_delete(&mut e, DeleteKey::Backspace));
    assert_eq!(e.display_text(), "b");
    assert_eq!(e.caret, caret(0));
}

#[test]
fn delete_key_deletes_the_character_after_the_caret() {
    let mut e = text_editor("a€b", caret(1));
    assert!(deal_delete(&mut e, DeleteKey::Delete));
    assert_eq!(e.display_text(), "ab");
    assert_eq!(e.caret, caret(1));

    let mut e = text_editor("ab", caret(2));
    assert!(deal_delete(&mut e, DeleteKey::Delete));
    assert_eq!(e.display_text(), "ab");
    assert_eq!(e.caret, caret(2));
}

#[test]
fn deleting_keys_remove_a_selection_whole() {
    let mut e = text_editor("hello world", select(8, 2));
    assert!(deal_delete(&mut e, DeleteKey::Delete));
    assert_eq!(e.display_text(), "herld");
    assert_eq!(e.caret, caret(2));
}

#[test]
fn backspace_after_a_mention_removes_it() {
    let mut e = MessageEditor { edit_message: greeting(), caret: caret(14) };
    assert!(deal_delete(&mut e, DeleteKey::Backspace));
    assert_eq!(e.display_text(), "Hello nice to see you!");
    assert_eq!(e.caret, caret(6));
}

#[test]
fn other_keys_do_not_delete() {
    let mut e = text_editor("abc", caret(2));
    assert!(!deal_delete(&mut e, DeleteKey::Other));
    assert_eq!(e.display_text(), "abc");
    assert_eq!(e.caret, caret(2));
}

#[test]
fn copy_cut_and_paste() {
    let mut e = text_editor("copy this", select(5, 9));
    assert_eq!(e.copy_text(), Some("this".to_string()));
    assert_eq!(
        deal_copy_paste(&mut e, true, ClipboardKey::Copy, None),
        (true, Some("this".to_string()))
    );
    assert_eq!(e.display_text(), "copy this");

    assert_eq!(
        deal_copy_paste(&mut e, true, ClipboardKey::Cut, None),
        (true, Some("this".to_string()))
    );
    assert_eq!(e.display_text(), "copy ");
    assert_eq!(e.caret, caret(5));

    assert_eq!(
        deal_copy_paste(&mut e, true, ClipboardKey::Paste, Some("that".to_string())),
        (true, None)
    );
    assert_eq!(e.display_text(), "copy that");
    assert_eq!(e.caret, caret(9));
}

#[test]
fn clipboard_keys_need_the_command_key_and_a_selection() {
    let mut e = text_editor("abc", caret(1));
    assert_eq!(deal_copy_paste(&mut e, false, ClipboardKey::Paste, Some("x".to_string())), (false, None));
    assert_eq!(e.display_text(), "abc");
    assert_eq!(deal_copy_paste(&mut e, true, ClipboardKey::Copy, None), (true, None));
    assert_eq!(deal_copy_paste(&mut e, true, ClipboardKey::Cut, None), (true, None));
    assert_eq!(e.display_text(), "abc");
    assert_eq!(deal_copy_paste(&mut e, true, ClipboardKey::Paste, None), (true, None));
    assert_eq!(e.display_text(), "abc");
    assert_eq!(deal_copy_paste(&mut e, true, ClipboardKey::Other, None), (false, None));
}

#[test]
fn paste_replaces_the_selection() {
    let mut e = text_editor("one two", select(7, 4));
    deal_copy_paste(&mut e, true, ClipboardKey::Paste, Some("2".to_string()));
    assert_eq!(e.display_text(), "one 2");
    assert_eq!(e.caret, caret(5));
}

fn bot(id: uuid::Uuid, name: &str) -> Bot {
    Bot::new(
        id,
        name.to_string(),
        vec![Lang::En],
        None,
        None,
        vec![],
        "https://example.com".to_string(),
        HashMap::new(),
        serde_json::Value::Null,
    )
}

#[test]
fn choosing_a_bot_replaces_the_hint() {
    let id = uuid::Uuid::parse_str("a1a2a3a4-b1b2-c1c2-d1d2-d3d4d5d6d7d8").unwrap();
    let mut list = BotList::new(Rc::new(vec![bot(id, "Ribir")]));
    list.init_select(true);
    let mut e = text_editor("Hello @Ri nice", caret(9));
    assert_eq!(e.bot_hint(), Some("@Ri".to_string()));
    select_bot(&mut e, &list);
    assert_eq!(e.display_text(), "Hello @ Ribir  nice");
    assert_eq!(e.caret, caret(14));
    assert_eq!(e.edit_message.related_bot(), vec![BOT_ID.to_string()]);
    assert_eq!(e.edit_message.message_content(), "Hello  nice");
}

#[test]
fn choosing_without_hint_or_selection_changes_nothing() {
    let id = uuid::Uuid::new_v4();
    let mut list = BotList::new(Rc::new(vec![bot(id, "Ann")]));
    let mut e = text_editor("no hint", caret(3));
    select_bot(&mut e, &list);
    assert_eq!(e.display_text(), "no hint");
    assert_eq!(e.caret, caret(3));

    let mut e = text_editor("hi @A", caret(5));
    select_bot(&mut e, &list);
    assert_eq!(e.display_text(), "hi @A");

    list.init_select(true);
    select_bot(&mut e, &list);
    assert_eq!(e.display_text(), "hi @ Ann ");
    assert_eq!(e.caret, caret(9));
}

#[test]
fn question_asks_the_last_mentioned_bot() {
    let mut m = greeting();
    m.insert_bot(0, "first".to_string(), "A".to_string());
    let e = MessageEditor { edit_message: m, caret: caret(0) };
    let q = question(&e, "default".to_string()).unwrap();
    assert_eq!(q.text, "@ A Hello @ Ribir nice to see you!");
    assert_eq!(q.bot_id, BOT_ID);
    assert_eq!(q.content, "Hello nice to see you!");
}

#[test]
fn question_without_mentions_asks_the_default_bot() {
    let e = text_editor("plain", caret(0));
    let q = question(&e, "default".to_string()).unwrap();
    assert_eq!(q.text, "plain");
    assert_eq!(q.bot_id, "default");
    assert_eq!(q.content, "plain");
    assert!(question(&MessageEditor::new(), "default".to_string()).is_none());
}

#[test]
fn deleting_what_was_typed_restores_the_text() {
    for (cursor, typed) in [(0usize, "X"), (3, "é"), (6, "ab"), (9, "@"), (14, " "), (30, "end")] {
        let mut m = greeting();
        let before = m.display_message();
        let after = m.insert_str(cursor, typed);
        let start = after - typed.len();
        assert_eq!(m.delete(start..after), start);
        assert_eq!(m.display_message(), before);
    }
}

#[test]
fn checked_carets_never_rest_inside_a_mention() {
    let inside = |c: usize| 6 < c && c < 14;
    for a in 0..33 {
        let mut e = MessageEditor { edit_message: greeting(), caret: caret(0) };
        e.set_caret_with_check(caret(a));
        assert!(!inside(e.caret.cluster()));
        for b in 0..33 {
            e.set_caret_with_check(select(a, b));
            let r = e.caret.select_range();
            assert!(!inside(r.start) && !inside(r.end));
            e.update_caret_by_move(select(a, b), MoveDirection::Left);
            assert!(!inside(e.caret.cluster()));
        }
    }
}

#[test]
fn typing_drops_control_characters_but_keeps_ascii_space() {
    assert_eq!(typed_chars("a\u{7}b\tc\n\r\u{c}d\u{9f}é\u{0}"), "ab\tc\n\r\u{c}dé");
    assert_eq!(typed_chars(""), "");
    assert_eq!(typed_chars("\u{85}\u{a0}"), "\u{a0}");
}

#[test]
fn typed_characters_replace_the_selection() {
    let mut e = text_editor("hello", select(1, 4));
    deal_chars(&mut e, "\u{1b}EY", false);
    assert_eq!(e.display_text(), "hEYo");
    assert_eq!(e.caret, caret(3));

    deal_chars(&mut e, "zz", true);
    assert_eq!(e.display_text(), "hEYo");
    assert_eq!(e.caret, caret(3));
}

fn two_bots() -> (Vec<uuid::Uuid>, BotList) {
    let ids = vec![uuid::Uuid::new_v4(), uuid::Uuid::new_v4()];
    let list = BotList::new(Rc::new(vec![bot(ids[0], "Ribir"), bot(ids[1], "Rita")]));
    (ids, list)
}

#[test]
fn the_bot_list_follows_the_hint() {
    let (ids, mut list) = two_bots();
    let e = text_editor("hi @Rit", caret(7));
    assert!(update_bot_list(&e, &mut list));
    assert_eq!(list.get_bots().len(), 1);
    assert_eq!(list.selected_bot().unwrap().0, ids[1]);

    let e = text_editor("hi @Zed", caret(7));
    assert!(!update_bot_list(&e, &mut list));
    assert!(list.get_bots().is_empty());

    let e = text_editor("hi", caret(2));
    assert!(!update_bot_list(&e, &mut list));

    let e = text_editor("hi @", caret(4));
    assert!(update_bot_list(&e, &mut list));
    assert_eq!(list.get_bots().len(), 2);
    assert_eq!(list.selected_bot().unwrap().0, ids[0]);
}

#[test]
fn keys_move_and_hide_a_shown_list() {
    let (ids, mut list) = two_bots();
    let mut e = text_editor("hi @R", caret(5));
    let mut visible = update_bot_list(&e, &mut list);
    assert!(visible);

    let (a, handled) = editor_event(&mut e, &mut list, &mut visible, EditorEvent::ArrowDown, false, "d".to_string());
    assert!(handled && matches!(a, EditorAction::Nothing));
    assert_eq!(list.selected_bot().unwrap().0, ids[1]);
    let (_, handled) = editor_event(&mut e, &mut list, &mut visible, EditorEvent::ArrowUp, false, "d".to_string());
    assert!(handled);
    assert_eq!(list.selected_bot().unwrap().0, ids[0]);

    let (_, handled) = editor_event(&mut e, &mut list, &mut visible, EditorEvent::Other, false, "d".to_string());
    assert!(!handled);
    let (_, handled) = editor_event(&mut e, &mut list, &mut visible, EditorEvent::Escape, false, "d".to_string());
    assert!(handled && !visible);
    let (_, handled) = editor_event(&mut e, &mut list, &mut visible, EditorEvent::ArrowDown, false, "d".to_string());
    assert!(!handled);
    assert_eq!(list.selected_bot().unwrap().0, ids[0]);
    assert_eq!(e.display_text(), "hi @R");
}

#[test]
fn enter_chooses_from_a_shown_list() {
    let (ids, mut list) = two_bots();
    let mut e = text_editor("hi @Ri", caret(6));
    let mut visible = update_bot_list(&e, &mut list);
    let (a, handled) = editor_event(&mut e, &mut list, &mut visible, EditorEvent::Enter { with_shift: false }, false, "d".to_string());
    assert!(handled && matches!(a, EditorAction::Nothing));
    assert_eq!(e.display_text(), "hi @ Ribir ");
    assert_eq!(e.edit_message.related_bot(), vec![ids[0].to_string()]);
}

#[test]
fn enter_sends_and_empties_the_editor() {
    let (_, mut list) = two_bots();
    let mut visible = false;
    let mut e = text_editor("hello", caret(5));
    let (_, handled) = editor_event(&mut e, &mut list, &mut visible, EditorEvent::Enter { with_shift: true }, false, "d".to_string());
    assert!(!handled);
    assert_eq!(e.display_text(), "hello");

    let (a, handled) = editor_event(&mut e, &mut list, &mut visible, EditorEvent::Enter { with_shift: false }, false, "d".to_string());
    assert!(handled);
    match a {
        EditorAction::Ask(q) => {
            assert_eq!(q.text, "hello");
            assert_eq!(q.bot_id, "d");
            assert_eq!(q.content, "hello");
        }
        _ => panic!("expected a question"),
    }
    assert_eq!(e.display_text(), "");
    assert_eq!(e.caret, caret(0));

    let mut e = text_editor("bug report", caret(3));
    let (a, _) = editor_event(&mut e, &mut list, &mut visible, EditorEvent::Enter { with_shift: false }, true, "d".to_string());
    assert!(matches!(a, EditorAction::Feedback(ref t) if t == "bug report"));
    let (a, handled) = editor_event(&mut e, &mut list, &mut visible, EditorEvent::Enter { with_shift: false }, true, "d".to_string());
    assert!(handled && matches!(a, EditorAction::Nothing));
}

#[test]
fn deleting_keeps_the_mentions_it_does_not_meet() {
    let mut m = greeting();
    m.insert_bot(30, "last".to_string(), "Z".to_string());
    m.insert_bot(0, "first".to_string(), "A".to_string());
    assert_eq!(m.related_bot(), vec!["first".to_string(), BOT_ID.to_string(), "last".to_string()]);
    m.delete(12..13);
    assert_eq!(m.related_bot(), vec!["first".to_string(), "last".to_string()]);
    assert_eq!(m.display_message(), "@ A Hello nice to see you!@ Z ");
}
