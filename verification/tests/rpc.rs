//! JSON-RPC over lines.

use r2_core::events::AgentEvent;
use r2_core::rpc::{
    error_line, event_notification, prompt_reply, result_line, serve_goes_on, RpcOutcome, RpcServer, RpcTask,
    INVALID_PARAMS, INVALID_REQUEST, METHOD_NOT_FOUND, PARSE_ERROR, PROMPT_IN_FLIGHT, SESSION_ERROR, VERSION,
};
use r2_core::types::UsageStats;
use serde_json::Value;

/// 解析响应行
fn parse_response(line: &str) -> Value {
    serde_json::from_str(line).expect("响应必须是合法 JSON")
}

fn line_of(o: RpcOutcome) -> Value {
    match o {
        RpcOutcome::Line(l) => parse_response(&l),
        _ => panic!("应立即回行"),
    }
}

fn with_session() -> RpcServer {
    let mut server = RpcServer::new();
    server.finish_initialize(0, &Ok(Some("s0".into())));
    server
}

#[test]
fn test_rpc_initialize_and_prompt_serialize() {
    let mut server = RpcServer::new();
    let outcome = server.handle_line(r#"{"jsonrpc":"2.0","id":1,"method":"initialize"}"#);
    let RpcOutcome::Task(RpcTask::Initialize { id }) = outcome else {
        panic!("initialize 应交出任务");
    };
    let resp = line_of(server.finish_initialize(id, &Ok(Some("s1".into()))));
    assert_eq!(resp["jsonrpc"], "2.0");
    assert_eq!(resp["id"], 1);
    // 结果只含 session_id 和 version，不泄漏内部状态
    let result = &resp["result"];
    assert!(result["session_id"].is_string());
    assert!(result["version"].is_string());
    assert_eq!(result.as_object().unwrap().len(), 2);
    assert_eq!(result["version"], VERSION);
}

#[test]
fn test_rpc_unknown_method() {
    let mut server = RpcServer::new();
    let resp = line_of(server.handle_line(r#"{"jsonrpc":"2.0","id":7,"method":"fly"}"#));
    assert_eq!(resp["error"]["code"], METHOD_NOT_FOUND);
    assert_eq!(resp["id"], 7);
}

#[test]
fn test_rpc_prompt_in_flight() {
    let mut server = with_session();
    // 第一个 prompt → PendingPrompt
    let outcome = server.handle_line(r#"{"jsonrpc":"2.0","id":1,"method":"prompt","params":{"input":"任务"}}"#);
    assert!(matches!(outcome, RpcOutcome::PendingPrompt { id: 1, .. }));
    // 未完成时第二个 prompt → -32002
    let resp =
        line_of(server.handle_line(r#"{"jsonrpc":"2.0","id":2,"method":"prompt","params":{"input":"插队"}}"#));
    assert_eq!(resp["error"]["code"], PROMPT_IN_FLIGHT);
    assert_eq!(resp["id"], 2);
    // reset / shutdown 等同理被拦
    for method in ["reset", "shutdown", "initialize", "branch", "resume"] {
        let resp = line_of(server.handle_line(&format!(r#"{{"jsonrpc":"2.0","id":3,"method":"{method}"}}"#)));
        assert_eq!(resp["error"]["code"], PROMPT_IN_FLIGHT);
    }
}

#[test]
fn test_rpc_steer_routing() {
    let mut server = with_session();
    let outcome = server.handle_line(r#"{"jsonrpc":"2.0","id":1,"method":"prompt","params":{"input":"任务"}}"#);
    let RpcOutcome::PendingPrompt { id, input } = outcome else {
        panic!("应为 PendingPrompt");
    };
    assert_eq!((id, input.as_str()), (1, "任务"));
    assert!(server.begin_prompt(), "会话应存在");
    let outcome =
        server.handle_line(r#"{"jsonrpc":"2.0","id":2,"method":"steer","params":{"instruction":"改口令"}}"#);
    let RpcOutcome::Task(RpcTask::Steer { id, instruction, running }) = outcome else {
        panic!("steer 应交出任务");
    };
    assert_eq!((instruction.as_str(), running), ("改口令", true));
    let resp = line_of(server.finish_steer(id, &Ok(())));
    assert!(resp["result"].as_object().unwrap().is_empty());
    server.end_prompt();
    assert!(!server.in_flight());
    assert_eq!(parse_response(&prompt_reply(1, &Ok("最终回复".into())))["result"]["final_text"], "最终回复");
    // steered 事件应作为通知出现
    assert!(event_notification(&AgentEvent::Steered("改口令".into())).contains("\"steered\""));
}

#[test]
fn test_rpc_shutdown() {
    let mut server = RpcServer::new();
    let outcome = server.handle_line(r#"{"jsonrpc":"2.0","id":9,"method":"shutdown"}"#);
    let RpcOutcome::Shutdown(line) = outcome else {
        panic!("shutdown 应返回 Shutdown 指令");
    };
    let resp = parse_response(&line);
    assert_eq!(resp["id"], 9);
    assert!(resp["result"].as_object().unwrap().is_empty());
}

#[test]
fn test_event_notification_serialize() {
    let line = event_notification(&AgentEvent::MessageUpdate("你好".into()));
    let v = parse_response(&line);
    assert_eq!(v["method"], "event");
    assert_eq!(v["params"]["type"], "message_update");
    assert_eq!(v["params"]["data"]["text"], "你好");
    assert!(v.get("id").is_none(), "通知不应带 id");

    let line = event_notification(&AgentEvent::ToolCall {
        name: "read".into(),
        arguments: "{}".into(),
    });
    let v = parse_response(&line);
    assert_eq!(v["params"]["type"], "tool_call");
    assert_eq!(v["params"]["data"]["name"], "read");

    let line = event_notification(&AgentEvent::Done {
        final_text: "完".into(),
    });
    assert_eq!(parse_response(&line)["params"]["type"], "done");

    let line = event_notification(&AgentEvent::Error("炸了".into()));
    let v = parse_response(&line);
    assert_eq!(v["params"]["type"], "error");
    assert_eq!(v["params"]["data"]["message"], "炸了");
}

#[test]
fn test_rpc_malformed_json() {
    let mut server = RpcServer::new();
    let resp = line_of(server.handle_line("这不是 JSON {{{"));
    assert_eq!(resp["error"]["code"], PARSE_ERROR);
    assert_eq!(resp["id"], Value::Null);
    // 服务仍然存活，后续请求正常处理
    let outcome = server.handle_line(r#"{"jsonrpc":"2.0","id":1,"method":"shutdown"}"#);
    assert!(matches!(outcome, RpcOutcome::Shutdown(_)));
}

#[test]
fn test_rpc_steer_without_session() {
    let mut server = RpcServer::new();
    let resp = line_of(
        server.handle_line(r#"{"jsonrpc":"2.0","id":1,"method":"steer","params":{"instruction":"x"}}"#),
    );
    assert_eq!(resp["error"]["code"], SESSION_ERROR);
}

#[test]
fn requests_that_are_not_complete() {
    let mut server = with_session();
    let code = |s: &mut RpcServer, l: &str| line_of(s.handle_line(l))["error"]["code"].as_i64().unwrap();
    assert!(matches!(server.handle_line(r#"{"method":"reset"}"#), RpcOutcome::Nothing));
    assert_eq!(code(&mut server, r#"{"id":-1,"method":"reset"}"#), INVALID_REQUEST);
    assert_eq!(code(&mut server, r#"{"id":1}"#), INVALID_REQUEST);
    for l in [
        r#"{"id":1,"method":"prompt"}"#,
        r#"{"id":1,"method":"steer","params":{"instruction":3}}"#,
        r#"{"id":1,"method":"initialize","params":{"config_path":3}}"#,
        r#"{"id":1,"method":"branch"}"#,
        r#"{"id":1,"method":"branch","params":{"parent_id":"p","upto":-1}}"#,
        r#"{"id":1,"method":"resume"}"#,
    ] {
        assert_eq!(code(&mut server, l), INVALID_PARAMS, "{l}");
    }
}

#[test]
fn sessions_are_made_and_loaded() {
    let mut server = RpcServer::default();
    server.set_config_path("a.toml".into());
    assert_eq!(server.config_path(), Some("a.toml"));
    server.handle_line(r#"{"id":1,"method":"initialize","params":{"config_path":"b.toml"}}"#);
    assert_eq!(server.config_path(), Some("b.toml"));
    let RpcOutcome::Task(RpcTask::CreateForPrompt { id, input }) =
        server.handle_line(r#"{"id":4,"method":"prompt","params":{"input":"x"}}"#)
    else {
        panic!("无会话时应先建会话");
    };
    let failed = line_of(server.finish_create_for_prompt(id, &input, &Err("no".into())));
    assert_eq!(failed["error"]["message"], "no");
    assert!(!server.in_flight());
    assert!(matches!(server.finish_create_for_prompt(id, &input, &Ok(())), RpcOutcome::PendingPrompt { id: 4, .. }));
    server.cancel_prompt();
    assert!(!server.in_flight());
    assert!(matches!(
        server.handle_line(r#"{"id":5,"method":"reset"}"#),
        RpcOutcome::Task(RpcTask::Reset { id: 5, create: false })
    ));
    assert_eq!(line_of(server.finish_reset(5, &Ok(None)))["result"]["session_id"], Value::Null);
    let RpcOutcome::Task(RpcTask::Branch { parent_id, upto, .. }) =
        server.handle_line(r#"{"id":6,"method":"branch","params":{"parent_id":"p","upto":3}}"#)
    else {
        panic!();
    };
    assert_eq!((parent_id.as_str(), upto), ("p", Some(3)));
    let r = line_of(server.finish_branch(6, &Ok((Some("n".into()), 3))));
    assert_eq!((r["result"]["session_id"].as_str(), r["result"]["inherited_count"].as_u64()), (Some("n"), Some(3)));
    let r = line_of(server.finish_resume(7, &Ok((Some("n".into()), 9))));
    assert_eq!(r["result"]["message_count"], 9);
    let r = line_of(server.finish_resume(7, &Err("gone".into())));
    assert_eq!(r["error"]["code"], SESSION_ERROR);
    assert_eq!(line_of(server.finish_steer(8, &Err("full".into())))["error"]["message"], "steer 注入失败：full");
}

#[test]
fn lines_hold_no_line_feed() {
    assert!(!error_line(None, PARSE_ERROR, "a\nb").contains('\n'));
    assert_eq!(result_line(3, r2_core::json::Json::obj()), r#"{"id":3,"jsonrpc":"2.0","result":{}}"#);
    let u = UsageStats { input_tokens: 1, output_tokens: 2, cached_tokens: 3, llm_calls: 4 };
    assert!(!event_notification(&AgentEvent::UsageUpdate(u)).contains('\n'));
    assert_eq!(parse_response(&prompt_reply(1, &Err("e".into())))["error"]["message"], "e");
    assert!(serve_goes_on(true, false));
    assert!(serve_goes_on(false, true));
    assert!(!serve_goes_on(false, false));
}
