//! Chat message model shared by the AI services.
use vstd::prelude::*;
use vstd::string::*;

verus! {

/// Role of a message in the conversation sent to the model.
#[derive(Debug, Clone, Copy, PartialEq, Eq)]
pub enum Role {
    System,
    User,
    Assistant,
}

/// One message of a chat request.
#[derive(Debug, Clone, PartialEq, Eq)]
pub struct ChatMessage {
    pub role: Role,
    pub content: String,
}

impl ChatMessage {
    /// A system message with the given text.
    pub fn system(content: &str) -> (m: Self)
        ensures
            m.role == Role::System,
            m.content@ == content@,
    {
        ChatMessage { role: Role::System, content: String::from_str(content) }
    }

    /// A user message with the given text.
    pub fn user(content: &str) -> (m: Self)
        ensures
            m.role == Role::User,
            m.content@ == content@,
    {
        ChatMessage { role: Role::User, content: String::from_str(content) }
    }

    /// An assistant message with the given text.
    pub fn assistant(content: &str) -> (m: Self)
        ensures
            m.role == Role::Assistant,
            m.content@ == content@,
    {
        ChatMessage { role: Role::Assistant, content: String::from_str(content) }
    }
}

/// Token accounting reported by the provider.
#[derive(Debug, Clone, Copy, Default, PartialEq, Eq)]
pub struct TokenUsage {
    pub prompt_tokens: u32,
    pub completion_tokens: u32,
}

/// Assembled model answer.
#[derive(Debug, Clone, Default, PartialEq, Eq)]
pub struct CompletionResponse {
    pub text: String,
    pub usage: Option<TokenUsage>,
}

/// AI service stand-in used when no key is configured: never available.
#[derive(Debug, Default, Clone, Copy)]
pub struct NoOpAI;

impl NoOpAI {
    /// The no-op service is never available.
    pub fn available(&self) -> (r: bool)
        ensures
            !r,
    {
        false
    }
}

} // verus!
