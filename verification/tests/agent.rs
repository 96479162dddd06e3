use std::collections::HashMap;
use std::sync::atomic::{AtomicUsize, Ordering};
use std::sync::Arc;

use smart_brain::agent::{record_output, Agent};
use smart_brain::error::BrainError;
use smart_brain::model::{MockModel, Model, ModelOutput};
use smart_brain::tool::{FnTool, Tool, ToolRegistry};
use smart_brain::types::{role_str, Message, Role, ToolCall};

fn nav_tool(
    calls: Arc<AtomicUsize>,
) -> Box<
    FnTool<
        impl Fn(&HashMap<String, String>) -> smart_brain::error::Result<String>
            + Send
            + Sync
            + 'static,
    >,
> {
    Box::new(FnTool::new(
        "navigate",
        "navigate to a waypoint",
        move |args: &HashMap<String, String>| {
            calls.fetch_add(1, Ordering::SeqCst);
            let wp = args.get("wp").map(|s| s.as_str()).unwrap_or("?");
            Ok(format!("navigating to {wp}"))
        },
    ))
}

#[test]
fn agent_calls_tool_then_answers() {
    let calls = Arc::new(AtomicUsize::new(0));
    let mut agent = Agent::new(
        Box::new(MockModel::new(vec!["navigate".into()], "done".to_string())),
        "you are a drone agent",
    );
    agent.add_tool(nav_tool(calls.clone()));
    let answer = agent.run("go to tower 3").unwrap();
    assert_eq!(answer, "done");
    assert_eq!(calls.load(Ordering::SeqCst), 1);
    assert!(agent
        .history()
        .iter()
        .any(|m| m.role == Role::Tool && m.content.contains("navigating to")));
}

#[test]
fn agent_continues_after_unknown_tool() {
    let mut agent = Agent::new(
        Box::new(MockModel::new(vec!["missing".into()], "fallback".to_string())),
        "sys",
    );
    let answer = agent.run("hi").unwrap();
    assert_eq!(answer, "fallback");
    assert!(agent
        .history()
        .iter()
        .any(|m| m.role == Role::Tool && m.content.contains("unknown tool")));
}

#[test]
fn agent_max_iters_errors() {
    let mut agent = Agent::new(
        Box::new(MockModel::new(vec!["a".into(); 20], "never".to_string())),
        "sys",
    );
    agent.set_max_iters(3);
    assert!(matches!(agent.run("x"), Err(BrainError::Agent(_))));
}

#[test]
fn returns_final_without_tools() {
    let mut agent = Agent::new(Box::new(MockModel::new(vec![], "ok".to_string())), "sys");
    assert_eq!(agent.run("hi").unwrap(), "ok");
}

#[test]
fn max_iters_zero_errors() {
    let mut agent = Agent::new(
        Box::new(MockModel::new(vec!["t".into()], "x".to_string())),
        "sys",
    );
    agent.set_max_iters(0);
    assert!(matches!(agent.run("go"), Err(BrainError::Agent(_))));
}

#[test]
fn reset_clears_history() {
    let mut agent = Agent::new(
        Box::new(MockModel::new(vec!["t".into()], "done".to_string())),
        "you are a drone",
    );
    agent.run("start").unwrap();
    assert!(agent.history().len() > 1);
    agent.reset();
    assert_eq!(agent.history().len(), 1);
    assert_eq!(agent.history()[0].role, Role::System);
}

#[test]
fn stress_many_tool_calls() {
    let calls = Arc::new(AtomicUsize::new(0));
    let c2 = calls.clone();
    let mut agent = Agent::new(
        Box::new(MockModel::new(vec!["t".into(); 30], "done".to_string())),
        "sys",
    );
    agent.add_tool(Box::new(FnTool::new("t", "tool", move |_| {
        c2.fetch_add(1, Ordering::SeqCst);
        Ok("ok".to_string())
    })));
    agent.set_max_iters(40);
    assert_eq!(agent.run("go").unwrap(), "done");
    assert_eq!(calls.load(Ordering::SeqCst), 30);
}

#[test]
fn mock_emits_plan_then_final() {
    let mut m = MockModel::new(vec!["a".into(), "b".into()], "ok".to_string());
    assert!(matches!(m.generate(&[]).unwrap(), ModelOutput::ToolCall(_)));
    assert!(matches!(m.generate(&[]).unwrap(), ModelOutput::ToolCall(_)));
    assert!(matches!(m.generate(&[]).unwrap(), ModelOutput::Text(s) if s == "ok"));
}

#[test]
fn fn_tool_runs() {
    let t = FnTool::new("add", "adds two numbers", |args| {
        let a: i32 = args.get("a").unwrap().parse().unwrap();
        let b: i32 = args.get("b").unwrap().parse().unwrap();
        Ok((a + b).to_string())
    });
    let mut args = HashMap::new();
    args.insert("a".to_string(), "2".to_string());
    args.insert("b".to_string(), "40".to_string());
    assert_eq!(t.run(&args).unwrap(), "42");
}

#[test]
fn registry_lookup() {
    let mut reg = ToolRegistry::new();
    reg.add(Box::new(FnTool::new("nav", "navigate", |_| Ok("nav".into()))));
    reg.add(Box::new(FnTool::new("detect", "detect", |_| Ok("det".into()))));
    assert_eq!(reg.len(), 2);
    assert!(reg.get("nav").is_some());
    assert!(reg.get("missing").is_none());
    assert_eq!(reg.names(), vec!["nav".to_string(), "detect".to_string()]);
}

#[test]
fn message_role_constructors() {
    let m = Message::system("sys");
    assert_eq!(m.role, Role::System);
    assert_eq!(m.content, "sys");
    let m = Message::user("你好");
    assert_eq!(m.role, Role::User);
    assert_eq!(m.content, "你好");
    let m = Message::assistant("ok");
    assert_eq!(m.role, Role::Assistant);
    let m = Message::tool_result("id-1", "42");
    assert_eq!(m.role, Role::Tool);
    assert_eq!(m.content, "[tool:id-1] 42");
}

#[test]
fn tool_call_arg_lookup() {
    let mut args = HashMap::new();
    args.insert("goal".to_string(), "10.0".to_string());
    let tc = ToolCall::new("c1", "move", args);
    assert_eq!(tc.id, "c1");
    assert_eq!(tc.name, "move");
    assert_eq!(tc.arg("goal"), "10.0");
    assert_eq!(tc.arg("missing"), "");
}

#[test]
fn role_equality_and_clone() {
    assert_eq!(Role::User, Role::User);
    assert_ne!(Role::System, Role::Tool);
    let a = Message::user("x");
    let b = a.clone();
    assert_eq!(a.content, b.content);
    assert_eq!(a.role, b.role);
}

#[test]
fn role_strings() {
    assert_eq!(role_str(Role::System), "system");
    assert_eq!(role_str(Role::User), "user");
    assert_eq!(role_str(Role::Assistant), "assistant");
    assert_eq!(role_str(Role::Tool), "tool");
}

#[test]
fn mock_call_ids_and_sequence_argument() {
    let mut m = MockModel::new(vec!["a".into(), "b".into()], "ok");
    assert_eq!(m.name(), "mock");
    let ModelOutput::ToolCall(first) = m.generate(&[]).unwrap() else { panic!() };
    assert_eq!(first.id, "call-1");
    assert_eq!(first.name, "a");
    assert_eq!(first.arg("_seq"), "1");
    let ModelOutput::ToolCall(second) = m.generate(&[]).unwrap() else { panic!() };
    assert_eq!(second.id, "call-2");
    assert_eq!(second.arg("_seq"), "2");
}

#[test]
fn history_records_rounds_and_errors() {
    let mut agent = Agent::new(
        Box::new(MockModel::new(vec!["ghost".into()], "fine")),
        "sys",
    );
    agent.run("go").unwrap();
    let h = agent.history();
    assert_eq!(h.len(), 5);
    assert_eq!(h[1].role, Role::User);
    assert_eq!(h[1].content, "go");
    assert_eq!(h[2].role, Role::Assistant);
    assert_eq!(h[2].content, r#"tool_call call-1 ghost({"_seq": "1"})"#);
    assert_eq!(h[3].content, "[tool:call-1] ERROR: unknown tool 'ghost'");
    assert_eq!(h[4].content, "fine");
}

#[test]
fn exceeded_message_names_the_bound() {
    let mut agent = Agent::new(Box::new(MockModel::new(vec!["a".into(); 5], "x")), "sys");
    agent.set_max_iters(2);
    match agent.run("go") {
        Err(BrainError::Agent(m)) => assert_eq!(m, "exceeded max iterations (2)"),
        other => panic!("unexpected {:?}", other.is_ok()),
    }
    // user + 2 rounds of (call, result)
    assert_eq!(agent.history().len(), 1 + 1 + 4);
}

#[test]
fn failing_tool_result_is_recorded() {
    let mut agent = Agent::new(Box::new(MockModel::new(vec!["boom".into()], "after")), "sys");
    agent.add_tool(Box::new(FnTool::new("boom", "fails", |_| {
        Err(BrainError::Behavior("bad".to_string()))
    })));
    assert_eq!(agent.run("go").unwrap(), "after");
    assert_eq!(agent.history()[3].content, "[tool:call-1] ERROR: behavior tree error: bad");
    assert_eq!(agent.available_tools(), vec!["boom".to_string()]);
}

#[test]
fn default_registry_is_empty_and_finds_first_match() {
    let mut reg = ToolRegistry::default();
    assert!(reg.is_empty());
    reg.add(Box::new(FnTool::new("dup", "first", |_| Ok("one".into()))));
    reg.add(Box::new(FnTool::new("dup", "second", |_| Ok("two".into()))));
    let t = reg.get("dup").expect("registered");
    assert_eq!(t.description(), "first");
    assert_eq!(t.run(&HashMap::new()).unwrap(), "one");
}

#[test]
fn tool_message_is_the_registered_tools_result() {
    let calls = Arc::new(AtomicUsize::new(0));
    let mut agent = Agent::new(
        Box::new(MockModel::new(vec!["navigate".into()], "done".to_string())),
        "you are a drone agent",
    );
    agent.add_tool(nav_tool(calls.clone()));
    assert_eq!(agent.available_tools(), vec!["navigate".to_string()]);
    assert_eq!(agent.run("go to tower 3").unwrap(), "done");
    assert_eq!(calls.load(Ordering::SeqCst), 1);
    let h = agent.history();
    assert_eq!(h.len(), 5);
    assert_eq!(h[3].role, Role::Tool);
    assert_eq!(h[3].content, "[tool:call-1] navigating to ?");
    assert_eq!(h[4].role, Role::Assistant);
    assert_eq!(h[4].content, "done");
}

#[test]
fn add_tool_appends_the_tools_own_name() {
    let mut agent = Agent::new(Box::new(MockModel::new(vec![], "ok")), "sys");
    agent.add_tool(Box::new(FnTool::new("nav", "navigate", |_| Ok("n".into()))));
    agent.add_tool(Box::new(FnTool::new("scan", "scan", |_| Ok("s".into()))));
    assert_eq!(agent.available_tools(), vec!["nav".to_string(), "scan".to_string()]);
    assert_eq!(agent.history().len(), 1);
}

#[test]
fn record_output_answer_is_returned() {
    let mut h = vec![Message::user("q")];
    let a = record_output(&mut h, ModelOutput::Text("fine".to_string()), "", None);
    assert_eq!(a, Some("fine".to_string()));
    assert_eq!(h.len(), 2);
    assert_eq!(h[1].role, Role::Assistant);
    assert_eq!(h[1].content, "fine");
}

#[test]
fn record_output_tool_call_rounds() {
    let tc = ToolCall::new("c7", "nav", HashMap::new());
    let mut h = vec![Message::user("q")];
    let a = record_output(&mut h, ModelOutput::ToolCall(tc.clone()), "{}", Some(Ok("went".into())));
    assert_eq!(a, None);
    assert_eq!(h.len(), 3);
    assert_eq!(h[1].role, Role::Assistant);
    assert_eq!(h[1].content, "tool_call c7 nav({})");
    assert_eq!(h[2].role, Role::Tool);
    assert_eq!(h[2].content, "[tool:c7] went");
    let a = record_output(&mut h, ModelOutput::ToolCall(tc.clone()), "{}", None);
    assert_eq!(a, None);
    assert_eq!(h[4].content, "[tool:c7] ERROR: unknown tool 'nav'");
    let err = Some(Err(BrainError::Agent("stuck".into())));
    record_output(&mut h, ModelOutput::ToolCall(tc.clone()), "{}", err);
    assert_eq!(h[6].content, "[tool:c7] ERROR: agent error: stuck");
    let io = std::io::Error::new(std::io::ErrorKind::Other, "port closed");
    record_output(&mut h, ModelOutput::ToolCall(tc), "{}", Some(Err(BrainError::Io(io))));
    assert!(h[8].content.starts_with("[tool:c7] ERROR: io error: "));
    assert_eq!(h.len(), 9);
}

#[test]
fn max_iters_bounds_the_model_calls() {
    let mut agent = Agent::new(Box::new(MockModel::new(vec!["a".into(); 20], "never")), "sys");
    agent.set_max_iters(3);
    assert!(matches!(agent.run("x"), Err(BrainError::Agent(_))));
    assert_eq!(agent.history().len(), 2 + 2 * 3);
    let mut enough = Agent::new(Box::new(MockModel::new(vec!["a".into(); 30], "fin")), "sys");
    enough.set_max_iters(40);
    assert_eq!(enough.run("x").unwrap(), "fin");
    assert_eq!(enough.history().len(), 2 + 2 * 30 + 1);
}
