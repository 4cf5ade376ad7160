//! The chunks of a streamed chat completion, as the OpenAI API sends them.

use vstd::prelude::*;

verus! {

/// One chunk of a streamed chat completion.
#[derive(Debug, Clone)]
pub struct CreateChatCompletionStreamResponse {
    pub id: Option<String>,
    pub object: String,
    pub created: u32,
    pub model: String,
    pub choices: Vec<ChatChoiceDelta>,
    pub usage: Option<Usage>,
}

/// The tokens that a completion used.
#[derive(Debug, Clone, PartialEq, Eq, Structural)]
pub struct Usage {
    pub prompt_tokens: u32,
    pub completion_tokens: u32,
    pub total_tokens: u32,
}

/// One choice of a chunk: the text that it adds.
#[derive(Debug, Clone)]
pub struct ChatChoiceDelta {
    pub index: u32,
    pub delta: ChatCompletionResponseStreamMessage,
    pub finish_reason: Option<String>,
}

/// The part of a message that a chunk adds.
#[derive(Debug, Clone)]
pub struct ChatCompletionResponseStreamMessage {
    pub content: Option<String>,
    pub role: Option<Role>,
}

/// The author of a chat message.
#[derive(Debug, Clone, Copy, PartialEq, Eq, Structural)]
pub enum Role {
    System,
    User,
    Assistant,
    Function,
}

impl Default for Role {
    fn default() -> (r: Self)
        ensures
            r == Role::User,
    {
        Role::User
    }
}

} // verus!
