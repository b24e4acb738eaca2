//! The command line and the schedule.

use r2_core::cli::{
    banner, cleared, default_config_path, load_config, model_table, price_string, print_sessions,
    print_sessions_tree, repl_line, running_line, sessions_dir, show_session, steer_line, ConfigSource, ReplLine,
};
use r2_core::console::SessionSummary;
use r2_core::models::registry;
use r2_core::schedule::{
    bg_done_json, bg_started_json, bg_summary, due_tasks, BgOutcome, PendingWatch, TaskInfo, BG_BUDGET_FULL,
    BG_MAX_PER_DAY, BG_NO_SESSION,
};
use r2_core::types::{Message, Role, ToolCall, UsageStats};

#[test]
fn configurations_are_chosen() {
    assert_eq!(default_config_path(Some("/h")), "/h/.r2/config.toml");
    match load_config(Some("c.toml"), true, None, false) {
        Ok(ConfigSource::File(p)) => assert_eq!(p, "c.toml"),
        other => panic!("{other:?}"),
    }
    assert_eq!(load_config(Some("c.toml"), false, None, true).unwrap_err(), "指定的配置文件不存在：c.toml");
    match load_config(None, false, Some("/h"), true) {
        Ok(ConfigSource::File(p)) => assert_eq!(p, "/h/.r2/config.toml"),
        other => panic!("{other:?}"),
    }
    assert!(matches!(load_config(None, false, None, false), Ok(ConfigSource::Defaults)));
    assert_eq!(sessions_dir("~/s", Some("/h"), true).unwrap(), "/h/s");
    assert_eq!(
        sessions_dir("~/s", Some("/h"), false).unwrap_err(),
        "会话目录不可用：/h/s（还没有任何会话记录）"
    );
}

fn summary(id: &str, preview: &str, branch: Option<(&str, usize)>) -> SessionSummary {
    SessionSummary {
        id: id.into(),
        message_count: 3,
        last_ts: 17,
        first_user_preview: preview.into(),
        branch_from: branch.map(|b| b.0.to_string()),
        branch_upto: branch.map(|b| b.1),
    }
}

#[test]
fn sessions_are_listed() {
    assert_eq!(print_sessions(&vec![]), vec!["暂无历史会话"]);
    let v = vec![summary("s1", "你好", None), summary("s2", "", Some(("0123456789", 4)))];
    assert_eq!(
        print_sessions(&v),
        vec!["s1  |  3 条消息  |  ts=17  |  你好", "s2  |  3 条消息  |  ts=17  |  （无用户消息）"]
    );
    assert_eq!(
        print_sessions_tree(&v),
        vec!["s1  3条  你好", "s2  3条  （无用户消息）  ← 分支自 01234567@4"]
    );
}

#[test]
fn sessions_are_shown() {
    let mut m = Message::plain(Role::Assistant, "");
    m.tool_calls = Some(vec![ToolCall { id: "1".into(), name: "bash".into(), arguments: "x".repeat(130) }]);
    let u = UsageStats { input_tokens: 1_000, output_tokens: 20, cached_tokens: 0, llm_calls: 2 };
    let lines = show_session("s1", &vec![Message::plain(Role::User, "你好"), m], &u, "glm", Some("0.1234"));
    assert_eq!(lines[0], "会话 s1（2 条消息）");
    assert_eq!(&lines[1..3], &["\n[user]".to_string(), "你好".to_string()]);
    assert_eq!(lines[3], "\n[assistant]");
    assert_eq!(lines[4], format!("  → 工具调用 bash({})", "x".repeat(120)));
    assert!(lines[5].contains("0.1234"));
    let none = show_session("s1", &vec![], &UsageStats::default(), "glm", None);
    assert_eq!(none.len(), 1);
}

#[test]
fn models_are_listed() {
    assert_eq!(price_string(50), "0.5");
    assert_eq!(price_string(400), "4");
    assert_eq!(price_string(1105), "11.05");
    let t = model_table();
    assert_eq!(t.len(), 1 + registry().len());
    assert!(t[1].starts_with("glm-5.2-flash "));
    assert!(t[1].ends_with("  zhipu"));
}

#[test]
fn lines_at_the_prompt() {
    assert!(matches!(repl_line("  "), ReplLine::Nothing));
    assert!(matches!(repl_line(" /quit"), ReplLine::Quit));
    assert!(matches!(repl_line("/exit"), ReplLine::Quit));
    assert!(matches!(repl_line("/help"), ReplLine::Help));
    assert!(matches!(repl_line("/clear"), ReplLine::Clear));
    assert!(matches!(repl_line(" hi "), ReplLine::Run(t) if t == "hi"));
    assert!(matches!(running_line("/help"), ReplLine::Run(t) if t == "/help"));
    assert!(matches!(running_line("/quit"), ReplLine::Quit));
    assert!(matches!(running_line(""), ReplLine::Nothing));
    assert_eq!(steer_line("改"), "\n[steer] 指令已注入: 改");
    assert_eq!(banner("1.0", Some("s")), "R2 v1.0 | 会话 s | /help 帮助");
    assert_eq!(banner("1.0", None), "R2 v1.0 | /help 帮助");
    assert_eq!(cleared(Some("s")), "已清空上下文，新会话：s");
    assert_eq!(cleared(None), "已清空上下文");
}

fn task(id: &str, state: &str, due: Option<u64>) -> TaskInfo {
    TaskInfo { id: id.into(), state: state.into(), next_due: due }
}

#[test]
fn tasks_become_due() {
    let v = vec![
        task("a", "active", Some(5)),
        task("b", "active", Some(11)),
        task("c", "pending", Some(5)),
        task("d", "active", None),
    ];
    assert_eq!(due_tasks(&v, 10), vec!["a"]);
    assert_eq!(due_tasks(&v, 11), vec!["a", "b"]);
}

#[test]
fn pending_tasks_are_announced_once() {
    let first = vec![task("a", "pending", None)];
    let mut w = PendingWatch::new();
    assert_eq!(w.announce(&first), vec!["a"]);
    assert!(w.announce(&first).is_empty());
    let more = vec![task("a", "pending", None), task("b", "pending", None)];
    assert_eq!(w.announce(&more), vec!["b"]);
    assert!(w.announce(&more).is_empty());
    assert!(w.announce(&vec![]).is_empty());
    // 再次等待时重新通告
    assert_eq!(w.announce(&first), vec!["a"]);
}

#[test]
fn background_runs_are_told() {
    assert_eq!(bg_summary(&BgOutcome::Answer("好".repeat(400))).chars().count(), 302);
    assert_eq!(bg_summary(&BgOutcome::Failed("e".into())), "❌ e");
    assert_eq!(bg_summary(&BgOutcome::Timeout), "⏱ 超时（600s）");
    assert_eq!(bg_started_json("n", &"p".repeat(200)).get_str("prompt_preview").unwrap().len(), 120);
    assert_eq!(bg_done_json("n", "s").write(), r#"{"name":"n","result_preview":"s","t":"bg_done"}"#);
    assert_eq!(BG_MAX_PER_DAY, 12);
    assert!(BG_BUDGET_FULL.contains("预算") && BG_NO_SESSION.starts_with("ERROR"));
}
