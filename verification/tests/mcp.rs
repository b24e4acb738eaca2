//! Outside tool servers.

use r2_core::json::Json;
use r2_core::mcp::{
    call_tool, concat_text_content, sanitize_name, sort_tools, tool_name_of, tool_output, LineOutcome, McpConnection,
};
use r2_core::types::ToolSchema;

#[test]
fn test_sanitize_name() {
    assert_eq!(sanitize_name("my-server.v2"), "my_server_v2");
    assert_eq!(sanitize_name("echo"), "echo");
}

fn result_of(o: LineOutcome) -> Json {
    match o {
        LineOutcome::Result(r) => r,
        LineOutcome::Failed(e) => panic!("{e}"),
        LineOutcome::Skip => panic!("skipped"),
    }
}

const TOOLS: &str = r#"{"jsonrpc":"2.0","id":2,"result":{"tools":[{"name":"echo","description":"回显","inputSchema":{"type":"object","properties":{"text":{"type":"string"}}}},{"name":"fail"},{"description":"no name"}]}}"#;

#[test]
fn test_connect_and_list_tools() {
    let mut conn = McpConnection::new("mock".into());
    let (id, line) = conn.connect();
    assert_eq!(id, 1);
    let v = Json::read(&line).unwrap();
    assert_eq!(v.get_str("method"), Some("initialize"));
    assert_eq!(v.get2_str("params", "protocolVersion"), Some("2024-11-05"));
    assert!(matches!(conn.on_line(1, r#"{"jsonrpc":"2.0","id":1,"result":{}}"#), LineOutcome::Result(_)));
    assert_eq!(
        Json::read(&conn.notify("notifications/initialized")).unwrap().get_str("method"),
        Some("notifications/initialized")
    );
    let (id, _) = conn.request("tools/list", Json::obj());
    assert_eq!(id, 2);
    // 通知与别的回复不算
    assert!(matches!(conn.on_line(2, r#"{"jsonrpc":"2.0","method":"note"}"#), LineOutcome::Skip));
    assert!(matches!(conn.on_line(2, r#"{"id":1,"result":{}}"#), LineOutcome::Skip));
    assert!(matches!(conn.on_line(2, "  "), LineOutcome::Skip));
    let tools = conn.list_tools(&result_of(conn.on_line(2, TOOLS))).expect("list_tools 应成功");
    assert_eq!(tools.len(), 2);
    let names: Vec<&str> = tools.iter().map(|t| t.name.as_str()).collect();
    assert!(names.contains(&"echo"));
    assert!(names.contains(&"fail"));
    assert_eq!(tools[0].parameters.get_str("type"), Some("object"));
    assert_eq!(tools[1].parameters.get_str("type"), Some("object"));
    assert_eq!(
        conn.list_tools(&Json::obj()).unwrap_err(),
        "MCP server mock 的 tools/list 响应缺少 tools 数组"
    );
}

#[test]
fn test_call_tool_echo() {
    let reply = Json::read(r#"{"content":[{"type":"text","text":"echo: "},{"type":"image"},{"type":"text","text":"你好"}]}"#).unwrap();
    let result = call_tool("echo", &reply).expect("echo 应成功");
    assert!(result.starts_with("echo: "), "实际：{result}");
    assert!(result.contains("你好"), "实际：{result}");
    assert_eq!(concat_text_content(&reply), "echo: \n你好");
}

#[test]
fn test_call_tool_fail_returns_error() {
    let reply = Json::read(r#"{"isError":true,"content":[{"type":"text","text":"坏了"}]}"#).unwrap();
    let err = call_tool("fail", &reply).unwrap_err();
    assert!(err.contains("ERROR"), "实际：{err}");
    assert_eq!(err, "ERROR: MCP 工具 fail 返回错误：坏了");
    assert_eq!(call_tool("x", &Json::obj()).unwrap_err(), "ERROR: MCP 工具 x 未返回文本内容");
    assert_eq!(tool_output(&Ok("t".into())), "t");
    assert!(tool_output(&Err("boom".into())).starts_with("ERROR:"));
}

#[test]
fn test_garbage_server_returns_err_no_panic() {
    let conn = McpConnection::new("mock".into());
    match conn.on_line(1, "garbage") {
        LineOutcome::Failed(e) => assert!(e.contains("返回无法解析的行") && e.contains("（内容：garbage）")),
        _ => panic!("应失败"),
    }
    match conn.on_line(1, r#"{"id":1,"error":{"code":-1}}"#) {
        LineOutcome::Failed(e) => assert_eq!(e, r#"MCP server mock 返回 JSON-RPC 错误：{"code":-1}"#),
        _ => panic!("应失败"),
    }
    assert_eq!(conn.timed_out("initialize", 30), "MCP server mock 请求 initialize 超时（30s）");
}

#[test]
fn tools_have_safe_names() {
    assert_eq!(tool_name_of("my-server.v2", "do it"), "mcp_my_server_v2_do_it");
    assert_eq!(sanitize_name(&sanitize_name("a-b é")), sanitize_name("a-b é"));
    let t = |n: &str| ToolSchema { name: n.into(), description: String::new(), parameters: Json::Null };
    let names: Vec<String> = sort_tools(vec![t("c"), t("a"), t("b")]).into_iter().map(|t| t.name).collect();
    assert_eq!(names, vec!["a", "b", "c"]);
}
