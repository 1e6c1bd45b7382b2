use std::any::TypeId;

use lazymcp::error::{McpError};
use lazymcp::LazyMcp;

fn server() -> LazyMcp<u32, String> {
    LazyMcp::new("demo", "0.1.0")
}

#[test]
fn new_server_is_empty() {
    let s = server();
    assert_eq!(s.name(), "demo");
    assert_eq!(s.version(), "0.1.0");
    assert!(s.instructions().is_none());
    assert!(s.list_tools().is_empty());
}

#[test]
fn registered_tool_is_called() {
    let s = server().with_tool("add".to_string(), 7);
    assert_eq!(s.call_tool("add"), Ok(&7));
}

#[test]
fn unknown_tool_is_method_not_found() {
    let s = server().with_tool("add".to_string(), 7);
    let err = s.call_tool("sub").unwrap_err();
    assert_eq!(err, McpError::MethodNotFound("Tool 'sub' not found".to_string()));
    assert_eq!(err.error_code(), -32601);
}

#[test]
fn last_registration_wins_and_keeps_place() {
    let s = server()
        .with_tool("a".to_string(), 1)
        .with_tool("b".to_string(), 2)
        .with_tool("a".to_string(), 3);
    assert_eq!(s.call_tool("a"), Ok(&3));
    assert_eq!(s.call_tool("b"), Ok(&2));
    let listed: Vec<(String, u32)> = s.list_tools().into_iter().map(|(n, t)| (n, *t)).collect();
    assert_eq!(listed, vec![("a".to_string(), 3), ("b".to_string(), 2)]);
}

#[test]
fn registering_keeps_other_tools() {
    let s = server().with_tool("a".to_string(), 1).with_tool("b".to_string(), 2);
    assert_eq!(s.call_tool("a"), Ok(&1));
}

#[test]
fn state_is_found_by_type() {
    let s = server()
        .with_state(TypeId::of::<u8>(), "bytes".to_string())
        .with_state(TypeId::of::<u16>(), "words".to_string());
    assert_eq!(s.get_state(&TypeId::of::<u8>()), Some(&"bytes".to_string()));
    assert_eq!(s.get_state(&TypeId::of::<u16>()), Some(&"words".to_string()));
    assert_eq!(s.get_state(&TypeId::of::<u32>()), None);
}

#[test]
fn state_is_replaced_by_type() {
    let s = server()
        .with_state(TypeId::of::<u8>(), "old".to_string())
        .with_state(TypeId::of::<u8>(), "new".to_string());
    assert_eq!(s.get_state(&TypeId::of::<u8>()), Some(&"new".to_string()));
}

#[test]
fn call_inputs_are_arguments_then_states_in_order() {
    let s = server()
        .with_state(TypeId::of::<u8>(), "bytes".to_string())
        .with_state(TypeId::of::<u16>(), "words".to_string());
    let wanted = vec![(TypeId::of::<u16>(), "u16".to_string()), (TypeId::of::<u8>(), "u8".to_string())];
    let (args, states) = s.prepare_call(Ok(5i32), &wanted).unwrap();
    assert_eq!(args, 5);
    assert_eq!(states, vec![&"words".to_string(), &"bytes".to_string()]);
}

#[test]
fn unreadable_arguments_come_first() {
    let s = server();
    let wanted = vec![(TypeId::of::<i64>(), "Store".to_string())];
    let err = s.prepare_call(Err::<i32, String>("missing field `a`".to_string()), &wanted).unwrap_err();
    assert_eq!(err, McpError::InvalidArguments("missing field `a`".to_string()));
    assert_eq!(err.error_code(), -32602);
}

#[test]
fn first_missing_state_is_internal_error() {
    let s = server().with_state(TypeId::of::<u8>(), "bytes".to_string());
    let wanted = vec![
        (TypeId::of::<u8>(), "u8".to_string()),
        (TypeId::of::<i64>(), "Store".to_string()),
        (TypeId::of::<i32>(), "Other".to_string()),
    ];
    let err = s.prepare_call(Ok(()), &wanted).unwrap_err();
    assert_eq!(err, McpError::InternalError("State of type `Store` is not registered".to_string()));
    assert_eq!(err.error_code(), -32603);
}

#[test]
fn state_and_tools_are_independent() {
    let s = server()
        .with_tool("a".to_string(), 1)
        .with_state(TypeId::of::<u8>(), "x".to_string())
        .with_tool("b".to_string(), 2);
    assert_eq!(s.call_tool("a"), Ok(&1));
    assert_eq!(s.get_state(&TypeId::of::<u8>()), Some(&"x".to_string()));
}

#[test]
fn instructions_are_set() {
    let s = server().with_instructions("Assistant that generates greetings.");
    assert_eq!(s.instructions(), Some(&"Assistant that generates greetings.".to_string()));
    assert_eq!(s.name(), "demo");
}

#[test]
fn error_codes_and_messages() {
    assert_eq!(McpError::InvalidArguments("bad".to_string()).error_code(), -32602);
    assert_eq!(McpError::ExecutionError("x".to_string()).error_code(), -32603);
    assert_eq!(McpError::InternalError("x".to_string()).error_code(), -32603);
    assert_eq!(McpError::MethodNotFound("x".to_string()).error_code(), -32601);
    assert_eq!(McpError::ExecutionError("boom".to_string()).message(), "boom");
    assert_eq!(McpError::tool_not_found("greet"), McpError::MethodNotFound("Tool 'greet' not found".to_string()));
}

#[test]
fn new_server_offers_tools() {
    let s = server();
    assert!(s.capabilities().tools.is_some());
    let caps = rmcp::model::ServerCapabilities::builder().enable_prompts().build();
    let s = s.with_capabilities(caps.clone());
    assert_eq!(s.capabilities(), &caps);
    assert!(s.capabilities().tools.is_none());
}

#[test]
fn call_with_runs_the_function_on_arguments_and_state() {
    let s = server().with_state(TypeId::of::<u8>(), "store".to_string());
    let wanted = vec![(TypeId::of::<u8>(), "u8".to_string())];
    let mut calls = 0;
    let r = s
        .call_with(Ok(4i32), &wanted, |a: i32, states: Vec<&String>| {
            calls += 1;
            Ok::<String, McpError>(format!("{} {}", states[0], a * 2))
        })
        .unwrap();
    assert_eq!(calls, 1);
    match r {
        lazymcp::ToolResult::Text { content, is_error } => {
            assert_eq!(content, vec!["store 8".to_string()]);
            assert_eq!(is_error, Some(false));
        }
        lazymcp::ToolResult::Given(_) => panic!("expected text"),
    }
}

#[test]
fn call_with_stops_before_running_on_bad_input() {
    let s = server();
    let wanted = vec![(TypeId::of::<u8>(), "Store".to_string())];
    let mut calls = 0;
    let r = s.call_with(Ok(1i32), &wanted, |_a: i32, _s: Vec<&String>| {
        calls += 1;
        Ok::<u8, McpError>(0)
    });
    assert_eq!(r.unwrap_err(), McpError::InternalError("State of type `Store` is not registered".to_string()));
    let r = s.call_with(Err::<i32, String>("bad".to_string()), &vec![], |_a: i32, _s: Vec<&String>| {
        calls += 1;
        Ok::<u8, McpError>(0)
    });
    assert_eq!(r.unwrap_err(), McpError::InvalidArguments("bad".to_string()));
    assert_eq!(calls, 0);
}

#[test]
fn call_with_passes_on_the_function_error() {
    let s = server();
    let r = s.call_with(Ok(1i32), &vec![], |_a: i32, _s: Vec<&String>| {
        Err::<u8, McpError>(McpError::ExecutionError("failed".to_string()))
    });
    assert_eq!(r.unwrap_err(), McpError::ExecutionError("failed".to_string()));
}
