//! What a bot's reply, as it streams in, does to the message that shows it.

use vstd::prelude::*;

use crate::model::msg::{MsgAction, MsgBody};
use crate::text::string_push_str;

verus! {

/// One step of a streamed reply: a piece of text, a failure with its
/// description, or the end.
pub enum ReplyEvent {
    Delta(String),
    Failed(String),
    Done,
}

/// The action that a step of the reply takes on the bot's message: a piece
/// of text is received as it is, a failure is received as `Error: ` and its
/// description, and the end fulfils the message.
pub fn reply_action(ev: ReplyEvent) -> (r: MsgAction)
    ensures
        match ev {
            ReplyEvent::Delta(d) => r matches MsgAction::Receiving(MsgBody::Text(Some(t))) && t@
                == d@,
            ReplyEvent::Failed(e) => r matches MsgAction::Receiving(MsgBody::Text(Some(t))) && t@
                == "Error: "@ + e@,
            ReplyEvent::Done => r is Fulfilled,
        },
{
    match ev {
        ReplyEvent::Delta(d) => MsgAction::Receiving(MsgBody::Text(Some(d))),
        ReplyEvent::Failed(e) => {
            let mut t = String::from_str("Error: ");
            string_push_str(&mut t, e.as_str());
            MsgAction::Receiving(MsgBody::Text(Some(t)))
        },
        ReplyEvent::Done => MsgAction::Fulfilled,
    }
}

/// What is asked of a bot: the content, after the quoted message's text and
/// a space when a message is quoted.
pub fn request_content(quote_text: Option<String>, content: String) -> (r: String)
    ensures
        r@ == match quote_text {
            Some(q) => q@ + " "@ + content@,
            None => content@,
        },
{
    match quote_text {
        Some(q) => {
            let mut r = q;
            string_push_str(&mut r, " ");
            string_push_str(&mut r, content.as_str());
            r
        },
        None => content,
    }
}

} // verus!
