//! What the language-model backends make of a service's reply, the offline
//! echo model, and the backend factory.
//!
//! The HTTP exchange itself happens outside the library; it hands over the
//! fields of the reply that decide the outcome, as plain values.
use vstd::prelude::*;
use std::collections::HashMap;
use crate::error::{BrainError, Result};
use crate::model::{Model, ModelOutput};
use crate::text::{concat, owned};
use crate::types::{Message, Role, ToolCall, string_keys_hash_consistently};

verus! {

/// The string-to-string object that `serde_json` reads from `text`; `None`
/// when `text` is not such a JSON object.
pub uninterp spec fn json_string_map(text: Seq<char>) -> Option<Map<String, String>>;

/// `serde_json::from_str::<HashMap<String, String>>`: the JSON object of
/// strings written in `raw`, or `None` when `raw` is not one. The result is
/// named, not restated: the JSON grammar is not written out here.
#[verifier::external_body]
fn parse_string_map(raw: &str) -> (r: Option<HashMap<String, String>>)
    ensures
        r is Some <==> json_string_map(raw@) is Some,
        r matches Some(m) ==> m@ == json_string_map(raw@)->Some_0,
{
    serde_json::from_str::<HashMap<String, String>>(raw).ok()
}

/// The first tool call of an OpenAI-style chat reply, field by field
/// (`None`: the field is missing or not a string).
#[derive(Debug, Clone)]
pub struct ReplyToolCall {
    pub id: Option<String>,
    pub name: Option<String>,
    /// The arguments, as the JSON text the service sent.
    pub arguments: Option<String>,
}

/// `o`'s text, or `default` when it is `None`.
pub open spec fn text_or(o: Option<String>, default: Seq<char>) -> Seq<char> {
    match o {
        Some(s) => s@,
        None => default,
    }
}

/// The arguments text of a reply's tool call (`{}` when it sent none).
pub open spec fn arguments_text(call: ReplyToolCall) -> Seq<char> {
    text_or(call.arguments, "{}"@)
}

fn text_or_else(o: &Option<String>, default: &str) -> (s: String)
    ensures
        s@ == text_or(*o, default@),
{
    match o {
        Some(t) => t.clone(),
        None => owned(default),
    }
}

/// The output for a reply's tool call, given what its arguments text parsed
/// to (`None`: not a JSON object of strings, an agent error naming the text).
/// A missing id is `call-0`, a missing name empty.
pub fn reply_tool_call(call: &ReplyToolCall, parsed: Option<HashMap<String, String>>) -> (r:
    Result<ModelOutput>)
    ensures
        parsed is None ==> (r matches Err(BrainError::Agent(m)) && m@ == "bad tool arguments: "@
            + arguments_text(*call)),
        parsed matches Some(args) ==> (r matches Ok(ModelOutput::ToolCall(tc)) && tc.id@ == text_or(
            call.id,
            "call-0"@,
        ) && tc.name@ == text_or(call.name, ""@) && tc.arguments == args),
{
    match parsed {
        None => {
            let raw = text_or_else(&call.arguments, "{}");
            Err(BrainError::Agent(concat(owned("bad tool arguments: "), raw.as_str())))
        },
        Some(args) => {
            let id = text_or_else(&call.id, "call-0");
            let name = text_or_else(&call.name, "");
            Ok(ModelOutput::ToolCall(ToolCall::new(id, name, args)))
        },
    }
}

/// What an OpenAI-compatible chat reply means: its first tool call when it has
/// one (arguments parsed as a JSON object of strings), else its text content;
/// an agent error when it has neither.
pub fn openai_reply(call: Option<ReplyToolCall>, content: Option<String>) -> (r: Result<
    ModelOutput,
>)
    ensures
        call matches Some(c) ==> {
            &&& json_string_map(arguments_text(c)) is None ==> (r matches Err(BrainError::Agent(m))
                && m@ == "bad tool arguments: "@ + arguments_text(c))
            &&& json_string_map(arguments_text(c)) matches Some(args) ==> (r matches Ok(
                ModelOutput::ToolCall(tc),
            ) && tc.id@ == text_or(c.id, "call-0"@) && tc.name@ == text_or(c.name, ""@)
                && tc.arguments@ == args)
        },
        call is None && content is Some ==> (r matches Ok(ModelOutput::Text(t)) && t@
            == content->Some_0@),
        call is None && content is None ==> (r matches Err(BrainError::Agent(m)) && m@
            == "llm: response has no content or tool_calls"@),
{
    match call {
        Some(c) => {
            let raw = text_or_else(&c.arguments, "{}");
            let parsed = parse_string_map(raw.as_str());
            reply_tool_call(&c, parsed)
        },
        None => match content {
            Some(t) => Ok(ModelOutput::Text(t)),
            None => Err(BrainError::Agent(owned("llm: response has no content or tool_calls"))),
        },
    }
}

/// A Hermes reply: its text content, or an agent error when it has none (the
/// service runs its tools itself).
pub fn hermes_reply(content: Option<String>) -> (r: Result<ModelOutput>)
    ensures
        content matches Some(t) ==> (r matches Ok(ModelOutput::Text(s)) && s@ == t@),
        content is None ==> (r matches Err(BrainError::Agent(m)) && m@
            == "hermes: response has no message content"@),
{
    match content {
        Some(t) => Ok(ModelOutput::Text(t)),
        None => Err(BrainError::Agent(owned("hermes: response has no message content"))),
    }
}

/// One argument value of an Ollama tool call. Numbers and compound values
/// come as their JSON text.
#[derive(Debug, Clone)]
pub enum ArgValue {
    Text(String),
    Number(String),
    Bool(bool),
    Null,
    Other(String),
}

/// The text an argument value is flattened to.
pub open spec fn arg_text(v: ArgValue) -> Seq<char> {
    match v {
        ArgValue::Text(s) => s@,
        ArgValue::Number(s) => s@,
        ArgValue::Bool(b) => if b {
            "true"@
        } else {
            "false"@
        },
        ArgValue::Null => ""@,
        ArgValue::Other(s) => s@,
    }
}

fn flatten_value(v: &ArgValue) -> (s: String)
    ensures
        s@ == arg_text(*v),
{
    match v {
        ArgValue::Text(s) => s.clone(),
        ArgValue::Number(s) => s.clone(),
        ArgValue::Bool(b) => if *b {
            owned("true")
        } else {
            owned("false")
        },
        ArgValue::Null => owned(""),
        ArgValue::Other(s) => s.clone(),
    }
}

/// Whether `m` maps each key of `pairs` to the flattened value of the last
/// pair with that key, and holds no other key.
pub open spec fn flattens(m: Map<String, String>, pairs: Seq<(String, ArgValue)>) -> bool {
    &&& forall|k: String| #[trigger] m.contains_key(k) <==> exists|i: int| 0 <= i < pairs.len() && #[trigger] pairs[i].0 == k
    &&& forall|i: int|
        0 <= i < pairs.len() && (forall|j: int| i < j < pairs.len() ==> #[trigger] pairs[j].0 != pairs[i].0)
            ==> #[trigger] m[pairs[i].0]@ == arg_text(pairs[i].1)
}

/// Flattens a tool call's arguments into a string map (values as text; a
/// repeated key keeps its last value).
pub fn flatten_arguments(pairs: &Vec<(String, ArgValue)>) -> (m: HashMap<String, String>)
    ensures
        string_keys_hash_consistently() ==> flattens(m@, pairs@),
{
    broadcast use vstd::std_specs::hash::axiom_random_state_builds_valid_hashers;

    let mut m: HashMap<String, String> = HashMap::new();
    let mut i: usize = 0;
    while i < pairs.len()
        invariant
            i <= pairs@.len(),
            string_keys_hash_consistently() ==> flattens(m@, pairs@.subrange(0, i as int)),
        decreases pairs@.len() - i,
    {
        let ghost before = m@;
        let k = pairs[i].0.clone();
        let v = flatten_value(&pairs[i].1);
        let ghost key = k;
        m.insert(k, v);
        proof {
            if string_keys_hash_consistently() {
                let p = pairs@.subrange(0, i + 1);
                let q = pairs@.subrange(0, i as int);
                assert(m@ == before.insert(key, v));
                assert(key == pairs@[i as int].0);
                assert forall|kk: String| #[trigger] m@.contains_key(kk) <==> exists|t: int| 0 <= t < p.len() && #[trigger] p[t].0 == kk by {
                    if m@.contains_key(kk) {
                        if kk == key {
                            assert(p[i as int].0 == kk);
                        } else {
                            assert(before.contains_key(kk));
                            let t = choose|t: int| 0 <= t < q.len() && #[trigger] q[t].0 == kk;
                            assert(p[t].0 == kk);
                        }
                    }
                    if exists|t: int| 0 <= t < p.len() && #[trigger] p[t].0 == kk {
                        let t = choose|t: int| 0 <= t < p.len() && #[trigger] p[t].0 == kk;
                        if t < i {
                            assert(q[t].0 == kk);
                        }
                    }
                }
                assert forall|t: int|
                    0 <= t < p.len() && (forall|j: int| t < j < p.len() ==> #[trigger] p[j].0 != p[t].0)
                        implies #[trigger] m@[p[t].0]@ == arg_text(p[t].1) by {
                    if t < i {
                        assert(p[i as int].0 != p[t].0);
                        assert forall|j: int| t < j < q.len() implies #[trigger] q[j].0 != q[t].0 by {
                            assert(p[j].0 != p[t].0);
                        }
                        assert(q[t] == p[t]);
                    }
                }
            }
        }
        i = i + 1;
    }
    proof {
        assert(pairs@.subrange(0, pairs@.len() as int) == pairs@);
    }
    m
}

/// The first tool call of an Ollama chat reply: its name (`None` when
/// missing) and its arguments, in the order the object lists them (empty
/// when the arguments are not an object).
#[derive(Debug, Clone)]
pub struct OllamaToolCall {
    pub name: Option<String>,
    pub arguments: Vec<(String, ArgValue)>,
}

/// What an Ollama chat reply means: its first tool call (id `call-<name>`)
/// when it has one, else its text content (empty when missing).
pub fn ollama_reply(call: Option<OllamaToolCall>, content: Option<String>) -> (r: ModelOutput)
    ensures
        call matches Some(c) ==> (r matches ModelOutput::ToolCall(tc) && tc.name@ == text_or(
            c.name,
            ""@,
        ) && tc.id@ == "call-"@ + text_or(c.name, ""@) && (string_keys_hash_consistently()
            ==> flattens(tc.arguments@, c.arguments@))),
        call is None ==> (r matches ModelOutput::Text(t) && t@ == text_or(content, ""@)),
{
    match call {
        Some(c) => {
            let name = text_or_else(&c.name, "");
            let arguments = flatten_arguments(&c.arguments);
            let id = concat(owned("call-"), name.as_str());
            ModelOutput::ToolCall(ToolCall::new(id, name, arguments))
        },
        None => ModelOutput::Text(text_or_else(&content, "")),
    }
}

/// The ids a model list names, in order, skipping entries without a string id.
pub open spec fn listed_ids(ids: Seq<Option<String>>) -> Seq<String>
    decreases ids.len(),
{
    if ids.len() == 0 {
        Seq::empty()
    } else {
        let prev = listed_ids(ids.drop_last());
        match ids.last() {
            Some(s) => prev.push(s),
            None => prev,
        }
    }
}

/// The model names of a `/models` listing.
pub fn model_ids(ids: Vec<Option<String>>) -> (r: Vec<String>)
    ensures
        r@ == listed_ids(ids@),
{
    let mut r: Vec<String> = Vec::new();
    let mut i: usize = 0;
    while i < ids.len()
        invariant
            i <= ids@.len(),
            r@ == listed_ids(ids@.subrange(0, i as int)),
        decreases ids@.len() - i,
    {
        proof {
            assert(ids@.subrange(0, i + 1).drop_last() == ids@.subrange(0, i as int));
        }
        match &ids[i] {
            Some(s) => r.push(s.clone()),
            None => {},
        }
        i = i + 1;
    }
    proof {
        assert(ids@.subrange(0, ids@.len() as int) == ids@);
    }
    r
}

/// The last user message's content, or empty when there is none.
pub open spec fn last_user_text(history: Seq<Message>) -> Seq<char>
    decreases history.len(),
{
    if history.len() == 0 {
        ""@
    } else if history.last().role == Role::User {
        history.last().content@
    } else {
        last_user_text(history.drop_last())
    }
}

/// The zero-configuration offline model: it answers with the last user
/// message.
pub struct EchoModel;

/// Whether `r` answers `history` with its last user message.
pub open spec fn echo_reply(history: Seq<Message>, r: Result<ModelOutput>) -> bool {
    r matches Ok(ModelOutput::Text(t)) && t@ == last_user_text(history)
}

/// Whether every reply of `trail` echoes the last user message of its
/// conversation.
pub open spec fn echo_answers(trail: Seq<(Seq<Message>, Result<ModelOutput>)>) -> bool {
    forall|k: int| 0 <= k < trail.len() ==> #[trigger] echo_reply(trail[k].0, trail[k].1)
}

impl Model for EchoModel {
    /// The echo model answers each conversation with its last user message.
    open spec fn may_answer(&self, trail: Seq<(Seq<Message>, Result<ModelOutput>)>) -> bool {
        echo_answers(trail)
    }

    fn generate(&mut self, history: &[Message]) -> (r: Result<ModelOutput>)
        ensures
            echo_reply(history@, r),
    {
        let r = echo_last_user(history);
        proof {
            assert forall|t: Seq<(Seq<Message>, Result<ModelOutput>)>| #[trigger]
                self.may_answer(t) implies echo_answers(seq![(history@, r)] + t) by {
                let u = seq![(history@, r)] + t;
                assert forall|k: int| 0 <= k < u.len() implies #[trigger] echo_reply(u[k].0, u[k].1) by {
                    if k > 0 {
                        assert(u[k] == t[k - 1]);
                        assert(echo_reply(t[k - 1].0, t[k - 1].1));
                    }
                }
            }
        }
        r
    }

    fn name(&self) -> (r: &str)
        ensures
            r@ == "mock"@,
    {
        "mock"
    }
}

/// The last user message of `history` as a final answer (empty when there is
/// none).
fn echo_last_user(history: &[Message]) -> (r: Result<ModelOutput>)
    ensures
        echo_reply(history@, r),
{
    let mut i = history.len();
    assert(history@.subrange(0, i as int) == history@);
    while i > 0
        invariant
            i <= history@.len(),
            forall|j: int| i <= j < history@.len() ==> #[trigger] history@[j].role != Role::User,
            last_user_text(history@) == last_user_text(history@.subrange(0, i as int)),
        decreases i,
    {
        proof {
            assert(history@.subrange(0, i as int).drop_last() == history@.subrange(0, i - 1));
        }
        assert(history@.subrange(0, i as int).last() == history@[i - 1]);
        if history[i - 1].role == Role::User {
            return Ok(ModelOutput::Text(history[i - 1].content.clone()));
        }
        i = i - 1;
    }
    assert(history@.subrange(0, 0) == Seq::<Message>::empty());
    Ok(ModelOutput::Text(owned("")))
}

/// The model backend named `backend`: `mock` is the echo model; the network
/// backends are assembled by the application around the reply functions
/// above, so any other name gives `None`.
pub fn build_model(backend: &str) -> (m: Option<Box<dyn Model>>)
    ensures
        m is Some <==> backend@ == "mock"@,
        m matches Some(b) ==> forall|t: Seq<(Seq<Message>, Result<ModelOutput>)>| #[trigger]
            b.may_answer(t) == echo_answers(t),
{
    if crate::text::same_text(backend, "mock") {
        Some(Box::new(EchoModel))
    } else {
        None
    }
}

/// The ids of a model listing are the string ids it carries, in order: the
/// entries that have one, each taken as is.
pub proof fn law_listed_ids_keep_order(ids: Seq<Option<String>>)
    ensures
        listed_ids(ids) == ids.filter(|o: Option<String>| o is Some).map_values(
            |o: Option<String>| o->Some_0,
        ),
    decreases ids.len(),
{
    reveal_with_fuel(Seq::filter, 1);
    if ids.len() > 0 {
        law_listed_ids_keep_order(ids.drop_last());
        let f = ids.drop_last().filter(|o: Option<String>| o is Some);
        assert(f.push(ids.last()).map_values(|o: Option<String>| o->Some_0) =~= f.map_values(
            |o: Option<String>| o->Some_0,
        ).push(ids.last()->Some_0));
    } else {
        assert(ids.filter(|o: Option<String>| o is Some).map_values(|o: Option<String>| o->Some_0)
            =~= Seq::<String>::empty());
    }
}

/// The echo model's text is the content of the latest user message, and empty
/// when the conversation has none.
pub proof fn law_last_user_text(history: Seq<Message>)
    ensures
        (forall|i: int| 0 <= i < history.len() ==> #[trigger] history[i].role != Role::User)
            ==> last_user_text(history) == ""@,
        forall|i: int|
            0 <= i < history.len() && #[trigger] history[i].role == Role::User && (forall|j: int|
                i < j < history.len() ==> history[j].role != Role::User) ==> last_user_text(history)
                == history[i].content@,
    decreases history.len(),
{
    if history.len() > 0 {
        let r = history.drop_last();
        law_last_user_text(r);
        if history.last().role != Role::User {
            assert forall|i: int|
                0 <= i < history.len() && #[trigger] history[i].role == Role::User && (forall|j: int|
                    i < j < history.len() ==> history[j].role != Role::User) implies last_user_text(
                history,
            ) == history[i].content@ by {
                assert(i < history.len() - 1);
                assert(r[i] == history[i]);
                assert forall|j: int| i < j < r.len() implies r[j].role != Role::User by {
                    assert(r[j] == history[j]);
                }
            }
            if forall|i: int| 0 <= i < history.len() ==> #[trigger] history[i].role != Role::User {
                assert forall|i: int| 0 <= i < r.len() implies #[trigger] r[i].role != Role::User by {
                    assert(r[i] == history[i]);
                }
            }
        }
    }
}

} // verus!
