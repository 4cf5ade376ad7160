//! What one read of a completion stream adds to the reply.

use vstd::prelude::*;

use crate::service::open_ai::CreateChatCompletionStreamResponse;
use crate::text::string_push_str;

verus! {

broadcast use vstd::seq::group_seq_axioms;

/// One event read from a completion stream: the stream opened, a message
/// arrived (its data, and the chunk that the data parses to, if it does), or
/// the stream failed.
pub enum StreamEvent<E> {
    Open,
    Message { data: String, parsed: Option<CreateChatCompletionStreamResponse> },
    Error(E),
}

/// The text that a chunk adds: the content of its first choice, if any.
pub open spec fn chunk_text(parsed: Option<CreateChatCompletionStreamResponse>) -> Seq<char> {
    match parsed {
        Some(r) => match r.choices@[0].delta.content {
            Some(c) => c@,
            None => Seq::empty(),
        },
        None => Seq::empty(),
    }
}

/// The text that a batch of events adds to the reply: the contents of the
/// messages in order, up to a `[DONE]` message; the first error fails the
/// whole batch.
pub open spec fn delta_of<E>(items: Seq<StreamEvent<E>>) -> Result<Seq<char>, E>
    decreases items.len(),
{
    if items.len() == 0 {
        Ok(Seq::empty())
    } else {
        match items[0] {
            StreamEvent::Open => delta_of(items.skip(1)),
            StreamEvent::Message { data, parsed } => if data@ == "[DONE]"@ {
                Ok(Seq::empty())
            } else {
                match delta_of(items.skip(1)) {
                    Ok(rest) => Ok(chunk_text(parsed) + rest),
                    Err(e) => Err(e),
                }
            },
            StreamEvent::Error(e) => Err(e),
        }
    }
}

/// Every message that the batch reads, before a `[DONE]` or an error, parsed
/// to a chunk of exactly one choice.
pub open spec fn delta_ok<E>(items: Seq<StreamEvent<E>>) -> bool
    decreases items.len(),
{
    if items.len() == 0 {
        true
    } else {
        match items[0] {
            StreamEvent::Open => delta_ok(items.skip(1)),
            StreamEvent::Message { data, parsed } => data@ == "[DONE]"@ || (parsed matches Some(r)
                && r.choices@.len() == 1 && delta_ok(items.skip(1))),
            StreamEvent::Error(_) => true,
        }
    }
}

/// The text that one read of the stream adds to the reply: `None` when the
/// stream had nothing more, otherwise the text of the batch that was read, or
/// its first error.
pub fn delta<E>(items: Option<Vec<StreamEvent<E>>>) -> (r: Result<Option<String>, E>)
    requires
        items matches Some(v) ==> delta_ok(v@),
    ensures
        items is None ==> r matches Ok(None),
        items matches Some(v) ==> match delta_of(v@) {
            Ok(s) => r matches Ok(Some(d)) && d@ == s,
            Err(e) => r == Err::<Option<String>, E>(e),
        },
{
    let mut batch = match items {
        None => return Ok(None),
        Some(batch) => batch,
    };
    let ghost all = batch@;
    let mut delta = String::new();
    let terminated = String::from_str("[DONE]");
    while batch.len() > 0
        invariant
            items matches Some(v) && v@ == all,
            delta_ok(batch@),
            terminated@ == "[DONE]"@,
            delta_of(all) == match delta_of(batch@) {
                Ok(rest) => Ok(delta@ + rest),
                Err(e) => Err(e),
            },
        decreases batch.len(),
    {
        let ghost before = batch@;
        let item = batch.remove(0);
        proof {
            assert(batch@ =~= before.skip(1));
        }
        match item {
            StreamEvent::Open => {},
            StreamEvent::Message { data, parsed } => {
                if data == terminated {
                    proof {
                        assert(delta@ + Seq::<char>::empty() =~= delta@);
                    }
                    return Ok(Some(delta));
                }
                let ghost d0 = delta@;
                match parsed {
                    Some(obj) => {
                        let choices = obj.choices;
                        match &choices[0].delta.content {
                            Some(content) => string_push_str(&mut delta, content.as_str()),
                            None => {},
                        }
                        proof {
                            match delta_of(batch@) {
                                Ok(rest) => {
                                    assert(d0 + (chunk_text(Some(obj)) + rest) =~= delta@ + rest);
                                },
                                Err(_) => {},
                            }
                        }
                    },
                    None => {},
                }
            },
            StreamEvent::Error(e) => {
                return Err(e);
            },
        }
    }
    proof {
        assert(delta@ + Seq::<char>::empty() =~= delta@);
    }
    Ok(Some(delta))
}

/// A message that is not `[DONE]` adds exactly the content of its chunk's
/// first choice, unchanged, in front of what the rest of the batch adds; a
/// chunk without content adds nothing; an error later in the batch fails it.
pub proof fn lemma_message_adds_content<E>(
    data: String,
    r: CreateChatCompletionStreamResponse,
    rest: Seq<StreamEvent<E>>,
)
    requires
        data@ != "[DONE]"@,
    ensures
        delta_of(seq![StreamEvent::Message { data, parsed: Some(r) }] + rest) == match delta_of(
            rest,
        ) {
            Ok(t) => Ok(
                match r.choices@[0].delta.content {
                    Some(c) => c@ + t,
                    None => t,
                },
            ),
            Err(e) => Err(e),
        },
{
    let items = seq![StreamEvent::Message { data, parsed: Some(r) }] + rest;
    assert(items.skip(1) =~= rest);
    assert(items[0] == StreamEvent::<E>::Message { data, parsed: Some(r) });
}

/// The event is a message other than `[DONE]` whose chunk's first choice
/// carries the given text as its content.
pub open spec fn message_with<E>(ev: StreamEvent<E>, text: Seq<char>) -> bool {
    match ev {
        StreamEvent::Message { data, parsed: Some(r) } => data@ != "[DONE]"@ && match r.choices@[
            0
        ].delta.content {
            Some(c) => c@ == text,
            None => false,
        },
        _ => false,
    }
}

/// A batch of messages, none of them `[DONE]` and each with content, adds the
/// contents one after the other, each unchanged.
pub proof fn lemma_batch_joins_contents<E>(items: Seq<StreamEvent<E>>, texts: Seq<Seq<char>>)
    requires
        items.len() == texts.len(),
        forall|i: int| 0 <= i < items.len() ==> message_with(#[trigger] items[i], texts[i]),
    ensures
        delta_of(items) == Ok::<Seq<char>, E>(texts.flatten()),
    decreases items.len(),
{
    if items.len() > 0 {
        let rest = items.skip(1);
        let trest = texts.drop_first();
        assert forall|i: int| 0 <= i < rest.len() implies message_with(#[trigger] rest[i], trest[i]) by {
            assert(rest[i] == items[i + 1]);
        }
        lemma_batch_joins_contents(rest, trest);
        assert(message_with(items[0], texts[0]));
    }
}

} // verus!
