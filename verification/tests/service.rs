use polestar::db::pool::db_path;
use polestar::service::open_ai::{
    ChatChoiceDelta, ChatCompletionResponseStreamMessage, CreateChatCompletionStreamResponse, Role,
};
use polestar::model::msg::{MsgAction, MsgBody};
use polestar::service::reply::{reply_action, request_content, ReplyEvent};
use polestar::service::req::{delta, StreamEvent};
use polestar::text::usize_text;

fn chunk(content: Option<&str>) -> CreateChatCompletionStreamResponse {
    CreateChatCompletionStreamResponse {
        id: Some("chatcmpl-1".to_string()),
        object: "chat.completion.chunk".to_string(),
        created: 1,
        model: "gpt-3.5-turbo".to_string(),
        choices: vec![ChatChoiceDelta {
            index: 0,
            delta: ChatCompletionResponseStreamMessage {
                content: content.map(str::to_string),
                role: Some(Role::Assistant),
            },
            finish_reason: None,
        }],
        usage: None,
    }
}

fn message(content: Option<&str>) -> StreamEvent<String> {
    StreamEvent::Message { data: "{}".to_string(), parsed: Some(chunk(content)) }
}

fn done() -> StreamEvent<String> {
    StreamEvent::Message { data: "[DONE]".to_string(), parsed: None }
}

#[test]
fn no_batch_means_the_stream_ended() {
    assert_eq!(delta::<String>(None), Ok(None));
}

#[test]
fn delta_joins_the_contents_of_a_batch() {
    let items = vec![StreamEvent::Open, message(Some("Hel")), message(None), message(Some("lo"))];
    assert_eq!(delta(Some(items)), Ok(Some("Hello".to_string())));
    assert_eq!(delta::<String>(Some(vec![])), Ok(Some(String::new())));
}

#[test]
fn delta_stops_at_done() {
    let items = vec![
        message(Some("a")),
        done(),
        message(Some("b")),
        StreamEvent::Error("late".to_string()),
    ];
    assert_eq!(delta(Some(items)), Ok(Some("a".to_string())));
}

#[test]
fn delta_fails_on_the_first_error() {
    let items = vec![message(Some("a")), StreamEvent::Error("boom".to_string()), done()];
    assert_eq!(delta(Some(items)), Err("boom".to_string()));
}

#[test]
fn role_defaults_to_user() {
    assert_eq!(Role::default(), Role::User);
}

#[test]
fn database_url_in_the_data_folder() {
    assert_eq!(db_path("/home/me/.polestar"), "sqlite:///home/me/.polestar/data.db?mode=rwc");
    assert_eq!(db_path(""), "sqlite:///data.db?mode=rwc");
}

#[test]
fn reply_steps_become_message_actions() {
    assert!(matches!(
        reply_action(ReplyEvent::Delta("Hel".to_string())),
        MsgAction::Receiving(MsgBody::Text(Some(ref t))) if t == "Hel"
    ));
    assert!(matches!(
        reply_action(ReplyEvent::Failed("timeout".to_string())),
        MsgAction::Receiving(MsgBody::Text(Some(ref t))) if t == "Error: timeout"
    ));
    assert!(matches!(reply_action(ReplyEvent::Done), MsgAction::Fulfilled));
}

#[test]
fn quoted_text_goes_before_the_request() {
    assert_eq!(request_content(Some("earlier".to_string()), "why?".to_string()), "earlier why?");
    assert_eq!(request_content(None, "why?".to_string()), "why?");
}

#[test]
fn usize_in_decimal() {
    assert_eq!(usize_text(0), "0");
    assert_eq!(usize_text(7), "7");
    assert_eq!(usize_text(10), "10");
    assert_eq!(usize_text(1234567890), "1234567890");
    assert_eq!(usize_text(usize::MAX), usize::MAX.to_string());
}
