//! The messages protocol and its event stream.

use r2_core::anthropic::{
    after_reply, build_request_body, find_event_sep, messages_to_anthropic, messages_url_of, parse_data_payload,
    parse_response, Attempt, Reply, SseParser, MAX_TOKENS,
};
use r2_core::json::Json;
use r2_core::types::{Message, Role, StreamChunk, ToolCall, ToolSchema};
use serde_json::Value;

fn value(j: &Json) -> Value {
    serde_json::from_str(&j.write()).unwrap()
}

/// 完整的 SSE 流文本（text + tool_use 开始 + input_json_delta 分片 + message_stop）
const SSE_TEXT: &str = "event: message_start\ndata: {\"type\":\"message_start\",\"message\":{\"id\":\"msg_01\",\"role\":\"assistant\"}}\n\nevent: content_block_start\ndata: {\"type\":\"content_block_start\",\"index\":0,\"content_block\":{\"type\":\"text\",\"text\":\"\"}}\n\nevent: content_block_delta\ndata: {\"type\":\"content_block_delta\",\"index\":0,\"delta\":{\"type\":\"text_delta\",\"text\":\"我需要执行命令\"}}\n\nevent: content_block_stop\ndata: {\"type\":\"content_block_stop\",\"index\":0}\n\nevent: content_block_start\ndata: {\"type\":\"content_block_start\",\"index\":1,\"content_block\":{\"type\":\"tool_use\",\"id\":\"toolu_01\",\"name\":\"bash\",\"input\":{}}}\n\nevent: content_block_delta\ndata: {\"type\":\"content_block_delta\",\"index\":1,\"delta\":{\"type\":\"input_json_delta\",\"partial_json\":\"{\\\"cmd\\\":\"}}\n\nevent: content_block_delta\ndata: {\"type\":\"content_block_delta\",\"index\":1,\"delta\":{\"type\":\"input_json_delta\",\"partial_json\":\"\\\"ls\\\"}\"}}\n\nevent: content_block_stop\ndata: {\"type\":\"content_block_stop\",\"index\":1}\n\nevent: message_delta\ndata: {\"type\":\"message_delta\",\"delta\":{\"stop_reason\":\"tool_use\"}}\n\nevent: message_stop\ndata: {\"type\":\"message_stop\"}\n\n";

/// 从 SSE 文本提取所有 Ok chunk（喂入整块）
fn parse_all(text: &str) -> Vec<StreamChunk> {
    let mut parser = SseParser::new();
    let mut results = parser.feed(text.as_bytes());
    results.extend(parser.finish());
    results.into_iter().collect::<Result<Vec<_>, _>>().expect("SSE 解析失败")
}

#[test]
fn test_sse_parse_full_stream() {
    let chunks = parse_all(SSE_TEXT);
    // Delta(text) + ToolCallDelta(start) + 2 × ToolCallDelta(json) + Done
    assert_eq!(chunks.len(), 5);
    match &chunks[0] {
        StreamChunk::Delta(s) => assert_eq!(s, "我需要执行命令"),
        other => panic!("期望 Delta，实际 {other:?}"),
    }
    match &chunks[1] {
        StreamChunk::ToolCallDelta { index, id, name, arguments_delta } => {
            assert_eq!(*index, 1);
            assert_eq!(id.as_deref(), Some("toolu_01"));
            assert_eq!(name.as_deref(), Some("bash"));
            assert_eq!(arguments_delta, "");
        }
        other => panic!("期望 ToolCallDelta，实际 {other:?}"),
    }
    match &chunks[2] {
        StreamChunk::ToolCallDelta { index, id, name, arguments_delta } => {
            assert_eq!(*index, 1);
            assert!(id.is_none());
            assert!(name.is_none());
            assert_eq!(arguments_delta, "{\"cmd\":");
        }
        other => panic!("期望 ToolCallDelta，实际 {other:?}"),
    }
    match &chunks[3] {
        StreamChunk::ToolCallDelta { arguments_delta, .. } => assert_eq!(arguments_delta, "\"ls\"}"),
        other => panic!("期望 ToolCallDelta，实际 {other:?}"),
    }
    assert!(matches!(chunks[4], StreamChunk::Done));
}

/// 恶意/畸形 SSE 输入：解析器绝不能 panic（产出什么都行，核心是不崩）
#[test]
fn test_sse_malformed_never_panics() {
    let cases: Vec<&str> = vec![
        "",
        "data:",
        "data: \n\n",
        "data: {broken json\n\n",
        "data: {}\n\n",
        "data: {\"type\":null}\n\n",
        "data: {\"type\":123}\n\n",
        "data: {\"type\":\"content_block_delta\"}\n\n",
        "data: {\"type\":\"content_block_delta\",\"index\":\"abc\"}\n\n",
        "data: {\"type\":\"content_block_delta\",\"index\":-1,\"delta\":null}\n\n",
        "data: {\"type\":\"content_block_start\",\"content_block\":{\"type\":\"tool_use\"},\"index\":-1}\n\n",
        "data: {\"type\":\"content_block_start\",\"content_block\":null}\n\n",
        "data: {\"type\":\"message_stop\"}\n\n",
        "data: \x00\x01binary garbage\n\n",
        // 孤代理对（应解析失败而非 panic）
        "data: {\"type\":\"content_block_delta\",\"delta\":{\"type\":\"text_delta\",\"text\":\"\\ud800\"}}\n\n",
        "event: message\ndata: {}\ndata: not json\n\n",
        "\n\n\n\ndata: {}\n\n\n",
    ];
    for case in &cases {
        // 整块喂入
        let mut parser = SseParser::new();
        let mut out = parser.feed(case.as_bytes());
        out.extend(parser.finish());
        // 逐字节喂入（跨块边界也不许崩），结果相同
        let mut parser = SseParser::new();
        let mut pieces = Vec::new();
        for b in case.as_bytes() {
            pieces.extend(parser.feed(&[*b]));
        }
        pieces.extend(parser.finish());
        assert_eq!(out, pieces);
    }
}

fn msg(role: Role, content: &str) -> Message {
    Message::plain(role, content)
}

#[test]
fn test_request_body_system_has_cache_control_breakpoint() {
    let msgs = vec![msg(Role::System, "你是 R2"), msg(Role::User, "hi")];
    let body = value(&build_request_body("sonnet-4-20250514", &msgs, &vec![]));
    let system = body["system"].as_array().expect("system 应为块数组");
    assert_eq!(system.len(), 1);
    assert_eq!(system[0]["type"], "text");
    assert_eq!(system[0]["text"], "你是 R2");
    assert_eq!(system[0]["cache_control"]["type"], "ephemeral");
}

#[test]
fn test_sse_parse_message_start_and_delta_usage() {
    // message_start 带 input 侧用量（含缓存明细），message_delta 带 output
    let text = "event: message_start\ndata: {\"type\":\"message_start\",\"message\":{\"id\":\"msg_01\",\"role\":\"assistant\",\"usage\":{\"input_tokens\":1500,\"cache_read_input_tokens\":1200,\"cache_creation_input_tokens\":300,\"output_tokens\":1}}}\n\nevent: content_block_delta\ndata: {\"type\":\"content_block_delta\",\"index\":0,\"delta\":{\"type\":\"text_delta\",\"text\":\"hi\"}}\n\nevent: message_delta\ndata: {\"type\":\"message_delta\",\"delta\":{\"stop_reason\":\"end_turn\"},\"usage\":{\"output_tokens\":42}}\n\nevent: message_stop\ndata: {\"type\":\"message_stop\"}\n\n";
    let chunks = parse_all(text);
    assert_eq!(chunks.len(), 4);
    match &chunks[0] {
        StreamChunk::Usage { input_tokens, output_tokens, cached_tokens } => {
            assert_eq!(*input_tokens, 1500);
            assert_eq!(*output_tokens, 0);
            assert_eq!(*cached_tokens, 1200);
        }
        other => panic!("期望 Usage(message_start)，实际 {other:?}"),
    }
    match &chunks[2] {
        StreamChunk::Usage { input_tokens, output_tokens, cached_tokens } => {
            assert_eq!(*input_tokens, 0);
            assert_eq!(*output_tokens, 42);
            assert_eq!(*cached_tokens, 0);
        }
        other => panic!("期望 Usage(message_delta)，实际 {other:?}"),
    }
    assert!(matches!(chunks[3], StreamChunk::Done));
}

#[test]
fn test_sse_parse_cross_chunk_boundary() {
    // 把一个 JSON 事件拆到两个网络块里，验证缓冲区能正确拼装
    let bytes = SSE_TEXT.as_bytes();
    let mid = bytes.len() / 2;
    let mut parser = SseParser::new();
    let mut results = parser.feed(&bytes[..mid]);
    results.extend(parser.feed(&bytes[mid..]));
    results.extend(parser.finish());
    let chunks: Vec<StreamChunk> = results.into_iter().collect::<Result<Vec<_>, _>>().expect("SSE 解析失败");
    assert_eq!(chunks.len(), 5);
    assert!(matches!(chunks[4], StreamChunk::Done));
    match &chunks[0] {
        StreamChunk::Delta(s) => assert_eq!(s, "我需要执行命令"),
        other => panic!("期望 Delta，实际 {other:?}"),
    }
}

#[test]
fn test_messages_system_extracted_to_top_level() {
    let msgs = vec![msg(Role::System, "你是 R2"), msg(Role::User, "hi")];
    let (system, converted) = messages_to_anthropic(&msgs);
    assert_eq!(system.as_deref(), Some("你是 R2"));
    // system 不进 messages 数组
    assert_eq!(converted.len(), 1);
    assert_eq!(converted[0].get_str("role"), Some("user"));
    assert_eq!(converted[0].get_str("content"), Some("hi"));
}

fn call(id: &str, name: &str, arguments: &str) -> ToolCall {
    ToolCall { id: id.to_string(), name: name.to_string(), arguments: arguments.to_string() }
}

#[test]
fn test_messages_assistant_tool_calls_to_tool_use() {
    let msgs = vec![Message {
        role: Role::Assistant,
        content: "我需要执行命令".to_string(),
        tool_calls: Some(vec![call("toolu_01", "bash", "{\"cmd\":\"ls\"}")]),
        tool_call_id: None,
    }];
    let (_, converted) = messages_to_anthropic(&msgs);
    assert_eq!(converted.len(), 1);
    let turn = value(&converted[0]);
    assert_eq!(turn["role"], "assistant");
    let content = turn["content"].as_array().unwrap();
    assert_eq!(content.len(), 2);
    assert_eq!(content[0]["type"], "text");
    assert_eq!(content[0]["text"], "我需要执行命令");
    assert_eq!(content[1]["type"], "tool_use");
    assert_eq!(content[1]["id"], "toolu_01");
    assert_eq!(content[1]["name"], "bash");
    // arguments 字符串被解析为 input 对象
    assert_eq!(content[1]["input"]["cmd"], "ls");
}

fn tool_result(id: &str, content: &str) -> Message {
    Message {
        role: Role::Tool,
        content: content.to_string(),
        tool_calls: None,
        tool_call_id: Some(id.to_string()),
    }
}

#[test]
fn test_messages_consecutive_tool_results_merged() {
    let msgs = vec![
        Message {
            role: Role::Assistant,
            content: String::new(),
            tool_calls: Some(vec![call("toolu_01", "bash", "{}"), call("toolu_02", "read", "{}")]),
            tool_call_id: None,
        },
        tool_result("toolu_01", "输出一"),
        tool_result("toolu_02", "输出二"),
    ];
    let (_, converted) = messages_to_anthropic(&msgs);
    // assistant + 合并后的一条 user 消息
    assert_eq!(converted.len(), 2);
    let turns: Vec<Value> = converted.iter().map(value).collect();
    assert_eq!(turns[0]["role"], "assistant");
    assert_eq!(turns[1]["role"], "user");
    let content = turns[1]["content"].as_array().unwrap();
    assert_eq!(content.len(), 2);
    assert_eq!(content[0]["type"], "tool_result");
    assert_eq!(content[0]["tool_use_id"], "toolu_01");
    assert_eq!(content[0]["content"], "输出一");
    assert_eq!(content[1]["type"], "tool_result");
    assert_eq!(content[1]["tool_use_id"], "toolu_02");
    assert_eq!(content[1]["content"], "输出二");
}

#[test]
fn test_request_body_tools_serialization() {
    let tools = vec![ToolSchema {
        name: "bash".to_string(),
        description: "执行命令".to_string(),
        parameters: Json::read(r#"{"type":"object","properties":{"cmd":{"type":"string"}}}"#).unwrap(),
    }];
    let msgs = vec![msg(Role::User, "hi")];
    let body = value(&build_request_body("sonnet-4-20250514", &msgs, &tools));
    assert_eq!(body["model"], "sonnet-4-20250514");
    assert_eq!(body["stream"], true);
    assert_eq!(body["max_tokens"], MAX_TOKENS);
    // tools 格式：name / description / input_schema（不是 parameters）
    assert_eq!(body["tools"][0]["name"], "bash");
    assert_eq!(body["tools"][0]["description"], "执行命令");
    assert_eq!(body["tools"][0]["input_schema"]["type"], "object");
    assert!(body["tools"][0].get("parameters").is_none());
}

#[test]
fn test_request_body_tools_omitted_when_empty() {
    let msgs = vec![msg(Role::User, "hi")];
    let body = value(&build_request_body("sonnet-4-20250514", &msgs, &vec![]));
    assert!(body.get("tools").is_none());
    assert!(body.get("system").is_none());
}

fn part(index: usize, id: Option<&str>, name: Option<&str>, arguments: &str) -> StreamChunk {
    StreamChunk::ToolCallDelta {
        index,
        id: id.map(|s| s.to_string()),
        name: name.map(|s| s.to_string()),
        arguments_delta: arguments.to_string(),
    }
}

#[test]
fn test_parse_response_mixed() {
    let chunks = vec![
        StreamChunk::Delta("我来执行".to_string()),
        StreamChunk::Delta("命令".to_string()),
        part(2, Some("toolu_02"), Some("read"), ""),
        part(1, Some("toolu_01"), Some("bash"), ""),
        part(1, None, None, "{\"cmd\":"),
        part(2, None, None, "{\"path\":\"a.txt\"}"),
        part(1, None, None, "\"ls\"}"),
        StreamChunk::Done,
    ];
    let (text, calls) = parse_response(&chunks);
    assert_eq!(text, "我来执行命令");
    // 按 index 排序
    assert_eq!(calls.len(), 2);
    assert_eq!(calls[0].id, "toolu_01");
    assert_eq!(calls[0].name, "bash");
    assert_eq!(calls[0].arguments, "{\"cmd\":\"ls\"}");
    assert_eq!(calls[1].id, "toolu_02");
    assert_eq!(calls[1].name, "read");
    assert_eq!(calls[1].arguments, "{\"path\":\"a.txt\"}");
}

#[test]
fn events_and_payloads() {
    assert_eq!(find_event_sep(b"ab\n\ncd"), Some(2));
    assert_eq!(find_event_sep(b"ab\n"), None);
    assert!(parse_data_payload("{broken").is_err());
    assert_eq!(
        parse_data_payload(r#"{"type":"content_block_delta","delta":{"type":"text_delta","text":"想"}}"#),
        Ok(vec![StreamChunk::Delta("想".into())])
    );
    let mut parser = SseParser::new();
    let out = parser.feed(b"data: {oops\n\n");
    assert_eq!(out.len(), 1);
    assert!(out[0].is_err());
    // 未完的事件在结束时处理
    assert!(parser.feed(b"data: {\"type\":\"message_stop\"}").is_empty());
    assert_eq!(parser.finish(), vec![Ok(StreamChunk::Done)]);
    assert!(parser.finish().is_empty());
}

#[test]
fn requests_are_tried_again() {
    assert_eq!(messages_url_of("https://x/"), "https://x/v1/messages");
    assert!(matches!(after_reply(0, Reply::Status(200)), Attempt::Accept));
    assert!(matches!(after_reply(0, Reply::Status(429)), Attempt::RetryAfter { secs: 1 }));
    assert!(matches!(after_reply(1, Reply::Status(503)), Attempt::RetryAfter { secs: 2 }));
    assert!(matches!(after_reply(2, Reply::Status(503)), Attempt::GiveUp));
    assert!(matches!(after_reply(0, Reply::Status(401)), Attempt::GiveUp));
    assert!(matches!(after_reply(0, Reply::NoAnswer), Attempt::RetryAfter { secs: 1 }));
    assert!(matches!(after_reply(2, Reply::NoAnswer), Attempt::GiveUp));
}
