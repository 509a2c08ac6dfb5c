//! Message and usage records of a language-model completion.

use vstd::prelude::*;

verus! {

/// Who sent a message.
#[derive(Debug, Clone, Copy, PartialEq, Eq, Structural)]
pub enum Role {
    /// The user.
    User,
    /// The assistant.
    Assistant,
}

/// A message in a conversation.
#[derive(Debug)]
pub struct Message {
    /// Sender of the message.
    pub role: Role,
    /// Text of the message.
    pub content: String,
}

impl Message {
    /// A message from the user.
    pub fn user(content: &str) -> (r: Message)
        ensures
            r.role == Role::User,
            r.content@ == content@,
    {
        Message { role: Role::User, content: content.to_owned() }
    }

    /// A message from the assistant.
    pub fn assistant(content: &str) -> (r: Message)
        ensures
            r.role == Role::Assistant,
            r.content@ == content@,
    {
        Message { role: Role::Assistant, content: content.to_owned() }
    }
}

/// Tokens consumed by a completion.
#[derive(Debug, Clone, Copy, PartialEq, Eq, Structural)]
pub struct TokenUsage {
    /// Input tokens consumed.
    pub input: u64,
    /// Output tokens generated.
    pub output: u64,
}

impl TokenUsage {
    /// Input and output tokens together.
    pub fn total(&self) -> (r: u64)
        requires
            self.input + self.output <= u64::MAX,
        ensures
            r == self.input + self.output,
    {
        self.input + self.output
    }
}

/// Why generation stopped.
#[derive(Debug, Clone, Copy, PartialEq, Eq, Structural)]
#[non_exhaustive]
pub enum StopReason {
    /// The response ended naturally.
    EndTurn,
    /// The token limit was reached.
    MaxTokens,
    /// A stop sequence was produced.
    StopSequence,
}

/// The response of a completion.
#[derive(Debug)]
pub struct CompletionResponse {
    /// Generated text.
    pub content: String,
    /// Tokens used.
    pub tokens_used: TokenUsage,
    /// Why generation stopped.
    pub stop_reason: StopReason,
}

/// A streamed completion; it carries no data yet.
pub struct CompletionStream {
    _private: (),
}

} // verus!
