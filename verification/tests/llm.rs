use smart_brain::error::BrainError;
use smart_brain::llm::{
    build_model, flatten_arguments, hermes_reply, model_ids, ollama_reply, openai_reply, ArgValue,
    EchoModel, OllamaToolCall, ReplyToolCall,
};
use smart_brain::model::{Model, ModelOutput};
use smart_brain::types::Message;

fn agent_error(r: Result<ModelOutput, BrainError>) -> String {
    match r {
        Err(BrainError::Agent(m)) => m,
        Err(e) => panic!("unexpected error {:?}", e),
        Ok(o) => panic!("unexpected output {:?}", o),
    }
}

#[test]
fn openai_tool_call_wins_over_content() {
    let call = ReplyToolCall {
        id: Some("call_7".into()),
        name: Some("navigate".into()),
        arguments: Some(r#"{"goal":"tower 3","speed":"2"}"#.into()),
    };
    match openai_reply(Some(call), Some("ignored".into())).unwrap() {
        ModelOutput::ToolCall(tc) => {
            assert_eq!(tc.id, "call_7");
            assert_eq!(tc.name, "navigate");
            assert_eq!(tc.arg("goal"), "tower 3");
            assert_eq!(tc.arg("speed"), "2");
            assert_eq!(tc.arguments.len(), 2);
        }
        other => panic!("expected a tool call, got {:?}", other),
    }
}

#[test]
fn openai_defaults_and_bad_arguments() {
    let bare = ReplyToolCall { id: None, name: None, arguments: None };
    match openai_reply(Some(bare), None).unwrap() {
        ModelOutput::ToolCall(tc) => {
            assert_eq!(tc.id, "call-0");
            assert_eq!(tc.name, "");
            assert!(tc.arguments.is_empty());
        }
        other => panic!("expected a tool call, got {:?}", other),
    }
    let bad = ReplyToolCall { id: None, name: Some("x".into()), arguments: Some("[1,2]".into()) };
    assert_eq!(agent_error(openai_reply(Some(bad), None)), "bad tool arguments: [1,2]");
    let numeric = ReplyToolCall { id: None, name: None, arguments: Some(r#"{"n":1}"#.into()) };
    assert_eq!(agent_error(openai_reply(Some(numeric), None)), r#"bad tool arguments: {"n":1}"#);
}

#[test]
fn openai_text_or_error() {
    match openai_reply(None, Some("hello".into())).unwrap() {
        ModelOutput::Text(t) => assert_eq!(t, "hello"),
        other => panic!("expected text, got {:?}", other),
    }
    assert_eq!(agent_error(openai_reply(None, None)), "llm: response has no content or tool_calls");
}

#[test]
fn hermes_reply_needs_content() {
    match hermes_reply(Some("ok".into())).unwrap() {
        ModelOutput::Text(t) => assert_eq!(t, "ok"),
        other => panic!("expected text, got {:?}", other),
    }
    assert_eq!(agent_error(hermes_reply(None)), "hermes: response has no message content");
}

#[test]
fn ollama_arguments_are_flattened_to_text() {
    let pairs = vec![
        ("goal".to_string(), ArgValue::Text("tower".into())),
        ("alt".to_string(), ArgValue::Number("12.5".into())),
        ("arm".to_string(), ArgValue::Bool(true)),
        ("safe".to_string(), ArgValue::Bool(false)),
        ("note".to_string(), ArgValue::Null),
        ("list".to_string(), ArgValue::Other("[1,2]".into())),
        ("goal".to_string(), ArgValue::Text("home".into())),
    ];
    let m = flatten_arguments(&pairs);
    assert_eq!(m.len(), 6);
    assert_eq!(m["goal"], "home");
    assert_eq!(m["alt"], "12.5");
    assert_eq!(m["arm"], "true");
    assert_eq!(m["safe"], "false");
    assert_eq!(m["note"], "");
    assert_eq!(m["list"], "[1,2]");
}

#[test]
fn ollama_reply_tool_call_or_text() {
    let call = OllamaToolCall {
        name: Some("detect".into()),
        arguments: vec![("class".to_string(), ArgValue::Text("person".into()))],
    };
    match ollama_reply(Some(call), Some("ignored".into())) {
        ModelOutput::ToolCall(tc) => {
            assert_eq!(tc.id, "call-detect");
            assert_eq!(tc.name, "detect");
            assert_eq!(tc.arg("class"), "person");
        }
        other => panic!("expected a tool call, got {:?}", other),
    }
    match ollama_reply(Some(OllamaToolCall { name: None, arguments: Vec::new() }), None) {
        ModelOutput::ToolCall(tc) => {
            assert_eq!(tc.id, "call-");
            assert_eq!(tc.name, "");
        }
        other => panic!("expected a tool call, got {:?}", other),
    }
    match ollama_reply(None, None) {
        ModelOutput::Text(t) => assert_eq!(t, ""),
        other => panic!("expected text, got {:?}", other),
    }
}

#[test]
fn listed_model_ids_skip_missing() {
    let ids = vec![Some("hermes-rust".to_string()), None, Some("llama3".to_string())];
    assert_eq!(model_ids(ids), vec!["hermes-rust", "llama3"]);
    assert!(model_ids(Vec::new()).is_empty());
}

#[test]
fn mock_backend_builds_and_echoes() {
    let mut m = build_model("mock").expect("mock available");
    assert_eq!(m.name(), "mock");
    match m.generate(&[Message::user("hello")]).unwrap() {
        ModelOutput::Text(t) => assert_eq!(t, "hello"),
        other => panic!("expected text, got {:?}", other),
    }
}

#[test]
fn unknown_backend_returns_none() {
    assert!(build_model("nonexistent").is_none());
    assert!(build_model("").is_none());
    assert!(build_model("ollama").is_none());
}

#[test]
fn echo_model_answers_last_user_message() {
    let mut m = EchoModel;
    let history = vec![
        Message::system("sys"),
        Message::user("first"),
        Message::assistant("reply"),
        Message::user("second"),
        Message::tool_result("id-1", "42"),
    ];
    match m.generate(&history).unwrap() {
        ModelOutput::Text(t) => assert_eq!(t, "second"),
        other => panic!("expected text, got {:?}", other),
    }
    match m.generate(&[]).unwrap() {
        ModelOutput::Text(t) => assert_eq!(t, ""),
        other => panic!("expected text, got {:?}", other),
    }
}
