//! Conversation messages and tool calls of the agent layer.
use vstd::prelude::*;
use std::collections::HashMap;
use crate::text::{owned, concat};

verus! {

/// A value that can be turned into an owned text (`&str` and `String`).
pub trait IntoText: Sized {
    /// The characters the value stands for.
    spec fn text_view(&self) -> Seq<char>;

    /// The owned text.
    fn into_text(self) -> (s: String)
        ensures
            s@ == self.text_view(),
    ;
}

impl<'a> IntoText for &'a str {
    open spec fn text_view(&self) -> Seq<char> {
        (*self)@
    }

    fn into_text(self) -> (s: String) {
        owned(self)
    }
}

impl IntoText for String {
    open spec fn text_view(&self) -> Seq<char> {
        self@
    }

    fn into_text(self) -> (s: String) {
        self
    }
}

/// Conversation role.
#[derive(Debug, Clone, Copy, PartialEq, Eq, Structural)]
pub enum Role {
    /// System prompt.
    System,
    /// Human instruction.
    User,
    /// The model.
    Assistant,
    /// A tool's result.
    Tool,
}

/// One conversation message.
#[derive(Debug, Clone)]
pub struct Message {
    pub role: Role,
    pub content: String,
}

/// The text of a tool-result message.
pub open spec fn tool_result_text(tool_call_id: Seq<char>, content: Seq<char>) -> Seq<char> {
    "[tool:"@ + tool_call_id + "] "@ + content
}

impl Message {
    pub fn system<S: IntoText>(content: S) -> (m: Self)
        ensures
            m.role == Role::System,
            m.content@ == content.text_view(),
    {
        Message { role: Role::System, content: content.into_text() }
    }

    pub fn user<S: IntoText>(content: S) -> (m: Self)
        ensures
            m.role == Role::User,
            m.content@ == content.text_view(),
    {
        Message { role: Role::User, content: content.into_text() }
    }

    pub fn assistant<S: IntoText>(content: S) -> (m: Self)
        ensures
            m.role == Role::Assistant,
            m.content@ == content.text_view(),
    {
        Message { role: Role::Assistant, content: content.into_text() }
    }

    /// A tool-result message: `[tool:<id>] <content>`.
    pub fn tool_result<S: IntoText>(tool_call_id: &str, content: S) -> (m: Self)
        ensures
            m.role == Role::Tool,
            m.content@ == tool_result_text(tool_call_id@, content.text_view()),
    {
        let head = concat(owned("[tool:"), tool_call_id);
        let head = concat(head, "] ");
        let body = content.into_text();
        Message { role: Role::Tool, content: concat(head, body.as_str()) }
    }
}

/// A model's request to call a tool.
#[derive(Debug, Clone)]
pub struct ToolCall {
    pub id: String,
    pub name: String,
    pub arguments: HashMap<String, String>,
}

/// Whether `String` keys hash consistently with their equality (the model of
/// hashed keys under which map lookups are specified).
pub open spec fn string_keys_hash_consistently() -> bool {
    vstd::std_specs::hash::obeys_key_model::<String>()
}

impl ToolCall {
    pub fn new<I: IntoText, N: IntoText>(id: I, name: N, arguments: HashMap<String, String>) -> (t:
        Self)
        ensures
            t.id@ == id.text_view(),
            t.name@ == name.text_view(),
            t.arguments == arguments,
    {
        ToolCall { id: id.into_text(), name: name.into_text(), arguments }
    }

    /// The argument named `key`, or the empty text when it is missing.
    pub fn arg(&self, key: &str) -> (r: &str)
        ensures
            string_keys_hash_consistently() ==> (exists|v: String|
                vstd::std_specs::hash::maps_borrowed_key_to_value(self.arguments@, key, v) && r@
                    == #[trigger] v@) || (!vstd::std_specs::hash::contains_borrowed_key(
                self.arguments@,
                key,
            ) && r@ == ""@),
    {
        broadcast use vstd::std_specs::hash::axiom_random_state_builds_valid_hashers;

        match self.arguments.get(key) {
            Some(s) => {
                proof {
                    if string_keys_hash_consistently() {
                        assert(vstd::std_specs::hash::maps_borrowed_key_to_value(
                            self.arguments@,
                            key,
                            *s,
                        ));
                    }
                }
                s.as_str()
            },
            None => "",
        }
    }
}

/// The transport name of a role.
pub open spec fn role_text(role: Role) -> Seq<char> {
    match role {
        Role::System => "system"@,
        Role::User => "user"@,
        Role::Assistant => "assistant"@,
        Role::Tool => "tool"@,
    }
}

/// Role -> role string of the HTTP/Ollama transports.
pub fn role_str(role: Role) -> (s: &'static str)
    ensures
        s@ == role_text(role),
{
    match role {
        Role::System => "system",
        Role::User => "user",
        Role::Assistant => "assistant",
        Role::Tool => "tool",
    }
}

} // verus!
