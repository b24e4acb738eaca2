//! The working memory.

use r2_core::context::{estimate_tokens, message_tokens, ContextManager, KEEP_RECENT, SUMMARY_PREFIX};
use r2_core::types::{Message, Role, ToolCall};

const THRESHOLD: f64 = 0.7;

fn manager(max: usize, threshold: f64) -> ContextManager {
    ContextManager::new("sys", max, (max as f64 * threshold).floor() as i64)
}

#[test]
fn test_build_system_first() {
    let mut ctx = ContextManager::new("你是 R2", 10_000, 7_000);
    ctx.add_message(Role::User, "你好").unwrap();
    ctx.add_message(Role::Assistant, "你好！有什么可以帮你？").unwrap();

    let msgs = ctx.build();
    assert_eq!(msgs.len(), 3);
    assert_eq!(msgs[0].role, Role::System);
    assert_eq!(msgs[0].content, "你是 R2");
    assert_eq!(msgs[1].role, Role::User);
    assert_eq!(msgs[2].role, Role::Assistant);
}

#[test]
fn test_token_count_monotonic() {
    let mut ctx = manager(10_000, THRESHOLD);
    assert_eq!(ctx.token_count(), 0);
    ctx.add_message(Role::User, "hello world").unwrap();
    let c1 = ctx.token_count();
    assert!(c1 > 0);
    ctx.add_message(Role::Assistant, "hi there").unwrap();
    assert!(ctx.token_count() > c1);
}

#[test]
fn test_context_overflow() {
    let mut ctx = manager(10, THRESHOLD);
    let result = ctx.add_message(Role::User, "这是一条非常非常长的消息，肯定会超过十个 token 的限制");
    assert!(result.is_err());
    assert!(result.unwrap_err().contains("上下文超限"));
}

#[test]
fn test_tool_messages() {
    let mut ctx = manager(10_000, THRESHOLD);
    let tc = ToolCall {
        id: "call_1".to_string(),
        name: "bash".to_string(),
        arguments: r#"{"command":"ls"}"#.to_string(),
    };
    ctx.add_assistant_with_tools("我来执行", vec![tc]).unwrap();
    ctx.add_tool_result("call_1", "file1.rs").unwrap();

    let msgs = ctx.build();
    assert_eq!(msgs[1].role, Role::Assistant);
    assert!(msgs[1].tool_calls.is_some());
    assert_eq!(msgs[2].role, Role::Tool);
    assert_eq!(msgs[2].tool_call_id.as_deref(), Some("call_1"));
}

/// 灌入 n 条短消息（user/assistant 交替）
fn fill(ctx: &mut ContextManager, n: usize) {
    for i in 0..n {
        let role = if i % 2 == 0 { Role::User } else { Role::Assistant };
        ctx.add_message(role, &format!("消息 {i}")).unwrap();
    }
}

#[test]
fn test_should_compress_below_threshold() {
    let mut ctx = manager(10_000, THRESHOLD);
    fill(&mut ctx, 20);
    assert!(!ctx.should_compress());
}

#[test]
fn test_should_compress_above_threshold() {
    let mut ctx = manager(100, THRESHOLD);
    fill(&mut ctx, 20); // 20 条 × 约 4 token ≈ 80 > 100*0.7
    assert!(ctx.should_compress());
}

#[test]
fn test_should_compress_false_when_nothing_compressible() {
    // 超阈值但消息数 <= KEEP_RECENT，无可压缩旧消息
    let mut ctx = manager(10, THRESHOLD);
    for i in 0..KEEP_RECENT {
        let role = if i % 2 == 0 { Role::User } else { Role::Assistant };
        ctx.add_message(role, &format!("{i}")).unwrap();
    }
    assert!(!ctx.should_compress());
}

#[test]
fn test_take_compressible_keeps_recent() {
    let mut ctx = manager(10_000, THRESHOLD);
    fill(&mut ctx, 20);
    let taken = ctx.take_compressible().unwrap();
    assert_eq!(taken.len(), 20 - KEEP_RECENT);
    let msgs = ctx.build();
    // system + 12 条保留
    assert_eq!(msgs.len(), 1 + KEEP_RECENT);
    assert_eq!(msgs[1].content, format!("消息 {}", 20 - KEEP_RECENT));
}

#[test]
fn test_take_compressible_aligns_tool_boundary() {
    // 构造：22 条消息，切分点（22 - 12 = 10）恰好落在 tool 结果上
    let mut ctx = manager(10_000, THRESHOLD);
    for i in 0..9 {
        let role = if i % 2 == 0 { Role::User } else { Role::Assistant };
        ctx.add_message(role, &format!("消息 {i}")).unwrap();
    }
    let tc = ToolCall {
        id: "call_w".to_string(),
        name: "bash".to_string(),
        arguments: "{}".to_string(),
    };
    ctx.add_assistant_with_tools("执行", vec![tc]).unwrap(); // index 9
    ctx.add_tool_result("call_w", "ok").unwrap(); // index 10 = 切分点
    fill(&mut ctx, 11); // index 11..22

    let taken = ctx.take_compressible().unwrap();
    // 切分点后推到 tool 结果之后：tool 组（assistant@9 + tool@10）整组进压缩
    assert_eq!(taken.len(), 11);
    assert_eq!(taken[9].role, Role::Assistant);
    assert!(taken[9].tool_calls.is_some());
    assert_eq!(taken[10].role, Role::Tool);
    // 保留区 11 条，第一条不是孤儿 tool 消息
    let msgs = ctx.build();
    assert_eq!(msgs.len(), 1 + 11);
    assert_ne!(msgs[1].role, Role::Tool);
}

#[test]
fn test_set_summary_and_build_position() {
    let mut ctx = manager(10_000, THRESHOLD);
    fill(&mut ctx, 4);
    ctx.set_summary("之前聊了 Rust".to_string());
    let msgs = ctx.build();
    // system_prompt + 摘要 + 4 条
    assert_eq!(msgs.len(), 6);
    assert_eq!(msgs[1].role, Role::System);
    assert!(msgs[1].content.starts_with(SUMMARY_PREFIX));
    assert!(msgs[1].content.contains("之前聊了 Rust"));
    assert_eq!(msgs[2].role, Role::User);
}

#[test]
fn test_second_compression_replaces_summary() {
    let mut ctx = manager(10_000, THRESHOLD);
    fill(&mut ctx, 30);
    let _ = ctx.take_compressible().unwrap();
    ctx.set_summary("摘要 v1".to_string());
    fill(&mut ctx, 20); // 剩 12 + 新 20 = 32 条，再次可压缩
    let _ = ctx.take_compressible().unwrap();
    ctx.set_summary("摘要 v2（合并 v1）".to_string());
    assert_eq!(ctx.l2_summary(), Some("摘要 v2（合并 v1）"));
    let msgs = ctx.build();
    // 只有一条摘要消息
    let summary_count = msgs
        .iter()
        .filter(|m| m.content.starts_with(SUMMARY_PREFIX))
        .count();
    assert_eq!(summary_count, 1);
    assert!(msgs[1].content.contains("摘要 v2"));
}

#[test]
fn test_from_messages_rebuilds_summary() {
    // 模拟恢复：被压缩的旧消息 + 末尾的摘要消息 + 之后的新消息
    let mut history: Vec<Message> = (0..10)
        .map(|i| Message {
            role: if i % 2 == 0 { Role::User } else { Role::Assistant },
            content: format!("旧消息 {i}"),
            tool_calls: None,
            tool_call_id: None,
        })
        .collect();
    history.push(Message {
        role: Role::System,
        content: format!("{SUMMARY_PREFIX}\n旧内容摘要"),
        tool_calls: None,
        tool_call_id: None,
    });
    history.push(Message {
        role: Role::User,
        content: "压缩后的新消息".to_string(),
        tool_calls: None,
        tool_call_id: None,
    });

    let ctx = ContextManager::from_messages("sys", history, 10_000, 7_000);
    assert_eq!(ctx.l2_summary(), Some("旧内容摘要"));
    let msgs = ctx.build();
    // system_prompt + 摘要 + 1 条新消息（旧 10 条已被摘要覆盖，不重复灌入）
    assert_eq!(msgs.len(), 3);
    assert_eq!(msgs[2].content, "压缩后的新消息");
}

#[test]
fn test_compression_state_machine_end_to_end() {
    // 状态机全流程：灌入超量消息 → should_compress → take → set → build 结构正确
    let mut ctx = manager(200, THRESHOLD);
    fill(&mut ctx, 40); // 40 × 约4token ≈ 160 > 200*0.7
    assert!(ctx.should_compress());

    let taken = ctx.take_compressible().unwrap();
    assert_eq!(taken.len(), 40 - KEEP_RECENT);
    ctx.set_summary("前 28 条摘要".to_string());

    let msgs = ctx.build();
    assert_eq!(msgs.len(), 1 + 1 + KEEP_RECENT);
    assert_eq!(msgs[0].content, "sys");
    assert!(msgs[1].content.starts_with(SUMMARY_PREFIX));
    assert_eq!(msgs[2].content, format!("消息 {}", 40 - KEEP_RECENT));

    // token_count 已扣除被压缩消息，低于阈值后不再触发
    assert!(!ctx.should_compress());
}

/// 阈值 0：只要有 token 且有可压缩消息，永远触发压缩
#[test]
fn test_threshold_zero_always_compresses() {
    let mut ctx = manager(10_000, 0.0);
    fill(&mut ctx, 20);
    assert!(ctx.should_compress());
}

/// 阈值 1.5（>1）：token 数被限制在 max 内，永不触发
#[test]
fn test_threshold_above_one_never_compresses() {
    let mut ctx = manager(100, 1.5);
    fill(&mut ctx, 20); // 约 80 token < 100*1.5
    assert!(!ctx.should_compress());
}

/// 阈值为负数：恒小于 0，行为等同 0（永远触发），不 panic
#[test]
fn test_threshold_negative_behaves_like_zero() {
    let mut ctx = manager(10_000, -0.5);
    fill(&mut ctx, 20);
    assert!(ctx.should_compress());
    // 无可压缩消息时仍不触发（1 条消息，保留阶梯最小为 2，切不出旧消息）
    let mut ctx2 = manager(10_000, -0.5);
    fill(&mut ctx2, 1);
    assert!(!ctx2.should_compress());
}

/// 上限 0：任何非空消息都报“上下文超限”（符合逻辑）
#[test]
fn test_zero_max_tokens_rejects_everything() {
    let mut ctx = manager(0, THRESHOLD);
    let result = ctx.add_message(Role::User, "hi");
    assert!(result.is_err());
    assert!(result.unwrap_err().contains("上下文超限"));
    let result = ctx.add_tool_result("c1", "ok");
    assert!(result.is_err());
    // 空内容估算为 0 token，0 > 0 不成立，仍可加入（不 panic 即可）
    assert!(ctx.add_message(Role::User, "").is_ok());
}

#[test]
fn tokens_of_messages() {
    assert_eq!(estimate_tokens("hello world"), 5);
    assert_eq!(estimate_tokens("你好"), 3);
    let mut m = Message::plain(Role::Assistant, "abcd");
    m.tool_calls = Some(vec![ToolCall { id: "1".into(), name: "bash".into(), arguments: "{}".into() }]);
    assert_eq!(message_tokens(&m), 2 + 1 + 2);
    let mut ctx = manager(3, THRESHOLD);
    ctx.add_message(Role::User, "abcd").unwrap();
    assert_eq!(
        ctx.add_message(Role::User, "abcd").unwrap_err(),
        "上下文超限：当前 2 tokens + 新增 2 tokens 超过上限 3 tokens"
    );
    assert_eq!((ctx.history_len(), ctx.token_count()), (1, 2));
}

#[test]
fn summaries_survive_restoring() {
    let mut ctx = manager(10_000, THRESHOLD);
    ctx.add_message(Role::User, "新消息").unwrap();
    ctx.set_summary("要点".to_string());
    let built = ctx.build();
    let saved: Vec<Message> = built.into_iter().skip(1).collect();
    let back = ContextManager::from_messages("sys", saved, 10_000, 7_000);
    assert_eq!(back.l2_summary(), Some("要点"));
    assert_eq!(back.history().len(), 1);
}
