//! The run of an agent and its system prompt.

use r2_core::agent::{recall_memory, truncate_str, usage_line, validate_turn_output, AgentRun, EMPTY_ANSWER};
use r2_core::config::Config;
use r2_core::context::ContextManager;
use r2_core::events::AgentEvent;
use r2_core::prompt::{
    agents_path, build_system_prompt_with_home, expand_with_home, own_soul_path, read_layer, scan_skills_layer,
    skill_dirs, soul_path, PromptSections, CUT_NOTE, MAX_LAYER_BYTES, SYSTEM_PROMPT,
};
use r2_core::types::{Message, Role, StreamChunk, ToolCall, UsageStats};

#[test]
fn test_validate_turn_output_empty_rejected() {
    // 双空 = 掐流，必须显式报错（不静默）
    let r = validate_turn_output("", &[]);
    assert!(r.is_err(), "双空必须报错");
    let msg = r.unwrap_err().to_string();
    assert!(
        msg.contains("内容审查") && msg.contains("新建会话"),
        "错误信息要给出路：{msg}"
    );
}

#[test]
fn test_validate_turn_output_valid_passes() {
    // 有正文 / 有工具调用 / 两者都有 → 均通过
    assert!(validate_turn_output("你好", &[]).is_ok());
    let call = ToolCall {
        id: "c1".into(),
        name: "bash".into(),
        arguments: "{}".into(),
    };
    assert!(validate_turn_output("", std::slice::from_ref(&call)).is_ok());
    // 纯空白正文 + 无调用 = 仍算空
    assert!(validate_turn_output("   \n  ", &[]).is_err());
}

fn new_run(max_turns: usize) -> AgentRun {
    AgentRun::new(ContextManager::new("sys", 10_000, 7_000), UsageStats::default(), max_turns)
}

fn delta(s: &str) -> StreamChunk {
    StreamChunk::Delta(s.to_string())
}

#[test]
fn test_steer_during_stream() {
    let mut run = new_run(50);
    run.begin("任务").unwrap();
    assert_eq!(run.start_turn(None).unwrap().len(), 2);
    assert_eq!(run.on_chunk(delta("第一段")), Some(AgentEvent::MessageUpdate("第一段".into())));
    run.on_steer("改口令").unwrap();
    assert!(run.start_turn(None).is_some());
    run.on_chunk(delta("最终回复"));
    run.on_chunk(StreamChunk::Done);
    assert!(run.on_stream_end().unwrap().is_empty());
    assert_eq!(run.final_text(), "最终回复");

    let messages = run.messages();
    assert!(messages.iter().any(|m| m.role == Role::User && m.content == "[用户中途指令] 改口令"));
    assert!(messages.iter().any(|m| m.role == Role::Assistant
        && m.content.contains("第一段")
        && m.content.contains("(此回复被用户中途打断)")));
    assert_eq!(run.signals().steers, vec!["改口令"]);
}

#[test]
fn test_usage_stats_and_jsonl_roundtrip() {
    let mut run = new_run(50);
    run.begin("统计用量").unwrap();
    run.start_turn(None).unwrap();
    run.on_chunk(delta("第一段"));
    run.on_chunk(delta("第二段"));
    run.on_stream_end().unwrap();
    assert!(run.usage().input_tokens > 0);
    assert!(run.usage().output_tokens > 0);
    assert_eq!(run.usage().llm_calls, 1);

    // 再跑一轮在累计值上继续
    let before = run.usage();
    let mut again = AgentRun::new(ContextManager::new("sys", 10_000, 7_000), before, 50);
    again.begin("继续").unwrap();
    again.start_turn(None).unwrap();
    again.on_chunk(delta("最终回复"));
    again.on_stream_end().unwrap();
    assert_eq!(again.usage().llm_calls, 2);
    assert!(again.usage().input_tokens > before.input_tokens);
}

#[test]
fn test_reset_context() {
    let mut run = new_run(50);
    run.begin("你好").unwrap();
    run.start_turn(None).unwrap();
    run.reset_context("sys", 10_000, 7_000);
    assert_eq!(run.history_len(), 0);
    assert_eq!(run.usage(), UsageStats::default());
}

#[test]
fn usage_of_the_server_counts() {
    let mut run = new_run(50);
    run.begin("abcd").unwrap();
    run.start_turn(None).unwrap();
    assert!(run.usage().input_tokens > 0);
    assert_eq!(run.on_chunk(StreamChunk::Reasoning("想想".into())), Some(AgentEvent::Thinking("想想".into())));
    run.on_chunk(delta("answer"));
    run.on_chunk(StreamChunk::Usage { input_tokens: 100, output_tokens: 7, cached_tokens: 40 });
    run.on_stream_end().unwrap();
    assert_eq!(
        run.usage(),
        UsageStats { input_tokens: 100, output_tokens: 7, cached_tokens: 40, llm_calls: 1 }
    );
    // 下一次运行在此基础上累计
    let mut again = AgentRun::new(ContextManager::new("sys", 10_000, 7_000), run.usage(), 50);
    again.begin("abcd").unwrap();
    again.start_turn(None).unwrap();
    again.on_chunk(delta("answer"));
    again.on_chunk(StreamChunk::Usage { input_tokens: 3, output_tokens: 2, cached_tokens: 1 });
    again.on_stream_end().unwrap();
    assert_eq!(
        again.usage(),
        UsageStats { input_tokens: 103, output_tokens: 9, cached_tokens: 41, llm_calls: 2 }
    );
}

#[test]
fn turns_are_bounded() {
    let mut run = new_run(2);
    run.begin("x").unwrap();
    for _ in 0..2 {
        assert!(run.start_turn(None).is_some());
        run.on_steer("again").unwrap();
    }
    assert!(run.start_turn(None).is_none());
    let mut none = new_run(0);
    none.begin("x").unwrap();
    assert!(none.start_turn(None).is_none());
}

fn call(name: &str, args: &str) -> ToolCall {
    ToolCall { id: "c1".into(), name: name.into(), arguments: args.into() }
}

#[test]
fn tools_are_run() {
    let mut run = new_run(5);
    run.begin("x").unwrap();
    let memory = recall_memory(&vec![("问".into(), "答".into())]).unwrap();
    let sent = run.start_turn(Some(&memory)).unwrap();
    assert_eq!(sent[1].content, "【跨会话记忆】以下是你（R2）在之前会话中的相关经历：\n- 用户曾问：问\n  你答：答");
    run.on_chunk(StreamChunk::ToolCallDelta {
        index: 0,
        id: Some("c1".into()),
        name: Some("bash".into()),
        arguments_delta: "cat skills/x/".into(),
    });
    run.on_chunk(StreamChunk::ToolCallDelta {
        index: 0,
        id: None,
        name: None,
        arguments_delta: "SKILL.md".into(),
    });
    let calls = run.on_stream_end().unwrap();
    assert_eq!(calls, vec![call("bash", "cat skills/x/SKILL.md")]);
    let (skill, added) = run.on_tool_result(&calls[0], "ERROR: no");
    assert_eq!(skill, Some(("x".to_string(), false)));
    assert!(added.is_ok());
    let (skill, _) = run.on_tool_result(&calls[0], "ok");
    assert_eq!(skill, Some(("x".to_string(), true)));
    assert_eq!(run.signals().retries_recovered, 1);
    assert_eq!(run.signals().tool_errors, vec![("bash".to_string(), "ERROR: no".to_string())]);
    assert_eq!(run.on_tool_result(&call("edit", "skills/x/SKILL.md"), "ok").0, None);
    run.end_turn(&vec!["先".into(), "后".into()]).unwrap();
    assert_eq!(run.messages().last().unwrap().content, "[用户中途指令] 先\n后");
    // 第二轮不再带记忆
    assert_eq!(run.start_turn(Some(&memory)).unwrap()[1].role, Role::User);
    assert_eq!(run.on_stream_end().unwrap_err(), EMPTY_ANSWER);
    assert!(recall_memory(&vec![]).is_none());
}

#[test]
fn conversations_are_compressed() {
    let mut run = AgentRun::new(ContextManager::new("sys", 10_000, 0), UsageStats::default(), 5);
    for i in 0..20 {
        run.begin(&format!("消息 {i}")).unwrap();
    }
    let (request, n) = run.start_compression().unwrap();
    assert_eq!(n, 8);
    assert!(request.content.starts_with("把以下对话历史压缩成简洁摘要"));
    assert!(request.content.contains("[user] 消息 0\n") && !request.content.contains("消息 8"));
    assert_eq!(run.finish_compression("  要点 \n").unwrap(), "要点");
    assert_eq!(run.history_len(), 12);
    assert_eq!(run.finish_compression(" ").unwrap_err(), "摘要模型返回空内容");
    for i in 0..20 {
        run.begin(&format!("新 {i}")).unwrap();
    }
    let (request, _) = run.start_compression().unwrap();
    assert!(request.content.contains("【已有摘要】\n要点\n\n【新对话内容】\n"));
    let mut idle = new_run(5);
    assert!(idle.start_compression().is_none());
}

#[test]
fn usage_in_words() {
    let u = UsageStats { input_tokens: 12_300, output_tokens: 999, cached_tokens: 0, llm_calls: 3 };
    assert_eq!(usage_line(&u, Some("0.12")), "输入 12.3k tok · 输出 999 tok · 调用 3 次 · 累计成本 ≈ ¥0.12");
    assert_eq!(usage_line(&u, None), "输入 12.3k tok · 输出 999 tok · 调用 3 次");
    assert_eq!(truncate_str("你好吗", 2), "你好");
}

// ---------- the system prompt ----------

const HOME: &str = "/home/u";

fn prompt(config: &Config, soul: Option<&str>, agents: Option<&str>) -> (String, PromptSections) {
    build_system_prompt_with_home(config, &vec![], None, soul, agents)
}

#[test]
fn test_prompt_core_only() {
    // 无 SOUL / AGENTS / 自定义配置 → 只有内核核心段
    let (full, sections) = prompt(&Config::default_config(), None, None);
    assert!(full.starts_with(SYSTEM_PROMPT));
    assert!(full.contains("工具使用规范"));
    assert!(!full.contains("[SOUL.md"));
    assert!(!full.contains("[AGENTS.md"));
    assert!(!full.contains("[自定义配置]"));
    // 内核恒附[成长系统]段：core 是前缀而非全部
    assert!(full.starts_with(sections.core.as_str()), "内核段必须是前缀");
    assert!(full.contains("[成长系统]"));
    assert!(sections.soul.is_none() && sections.agents.is_none() && sections.custom.is_none());
}

#[test]
fn test_prompt_with_soul() {
    let (full, sections) = prompt(&Config::default_config(), Some("温和而坚定"), None);
    assert!(full.contains("[SOUL.md 全局人格]\n温和而坚定"));
    assert_eq!(sections.soul.as_deref(), Some("温和而坚定"));
    assert!(sections.agents.is_none());
}

#[test]
fn test_prompt_with_agents() {
    let (full, sections) = prompt(&Config::default_config(), None, Some("本项目用 Rust"));
    assert!(full.contains("[AGENTS.md 项目上下文]\n本项目用 Rust"));
    assert_eq!(sections.agents.as_deref(), Some("本项目用 Rust"));
    assert!(sections.soul.is_none());
}

#[test]
fn test_prompt_soul_then_agents_order() {
    // 两层都有：SOUL 在前，AGENTS 在后
    let (full, _) = prompt(&Config::default_config(), Some("人格"), Some("项目"));
    let i_soul = full.find("[SOUL.md 全局人格]").unwrap();
    let i_agents = full.find("[AGENTS.md 项目上下文]").unwrap();
    assert!(i_soul < i_agents, "SOUL 段应在 AGENTS 段之前：{full}");
}

#[test]
fn test_prompt_custom_overrides_layers() {
    // system_prompt 配置非空：只留 核心+[自定义配置]，SOUL/AGENTS 被跳过
    let mut config = Config::default_config();
    config.agent.system_prompt = "只听我\u{7684}".to_string();
    let (full, sections) = prompt(&config, Some("人格"), Some("项目"));
    assert!(full.contains("[自定义配置]\n只听我\u{7684}"));
    assert!(!full.contains("[SOUL.md"));
    assert!(!full.contains("[AGENTS.md"));
    assert_eq!(sections.custom.as_deref(), Some("只听我\u{7684}"));
    assert!(sections.soul.is_none() && sections.agents.is_none());
}

#[test]
fn test_prompt_layer_truncated_at_64kb() {
    // 超过 64KB 的文件截断并带提示
    let long = "a".repeat(100 * 1024);
    let (full, sections) = prompt(&Config::default_config(), None, Some(&long));
    let agents = sections.agents.expect("应有 AGENTS 段");
    assert!(agents.len() <= MAX_LAYER_BYTES + 64, "截断后超长：{}", agents.len());
    assert!(agents.ends_with("已截断）"));
    assert!(full.len() < sections.core.len() + MAX_LAYER_BYTES + 1024);
}

#[test]
fn test_prompt_work_dir_tilde_expand() {
    // work_dir = "~/proj" 时用注入的 home 展开
    let mut config = Config::default_config();
    config.agent.work_dir = "~/proj".to_string();
    assert_eq!(agents_path(&config, HOME), "/home/u/proj/AGENTS.md");
    let (full, sections) = prompt(&config, None, Some("家目录项目"));
    assert!(full.contains("家目录项目"));
    assert!(sections.agents.is_some());
    // 纯函数自身的展开行为
    assert_eq!(expand_with_home("~/x", "/h"), "/h/x");
    assert_eq!(expand_with_home("~", "/h"), "/h");
    assert_eq!(expand_with_home("./rel", "/h"), "./rel");
}

#[test]
fn layers_fit() {
    assert_eq!(read_layer(Some("  \n")), None);
    assert_eq!(read_layer(None), None);
    // 多字节字符不会被切开
    let long = "字".repeat(MAX_LAYER_BYTES);
    let cut = read_layer(Some(&long)).unwrap();
    let body = cut.strip_suffix(CUT_NOTE).unwrap();
    assert_eq!(body.chars().count(), MAX_LAYER_BYTES / 3);
}

#[test]
fn personas_have_their_own_places() {
    let mut config = Config::default_config();
    assert_eq!(soul_path(HOME), "/home/u/.r2/SOUL.md");
    assert_eq!(own_soul_path(&config, HOME), None);
    assert_eq!(skill_dirs(&config, HOME), vec!["/home/u/.r2/skills"]);
    config.agent.persona_dir = Some("/home/u/.r2/agents/cfo".into());
    assert_eq!(own_soul_path(&config, HOME).as_deref(), Some("/home/u/.r2/agents/cfo/SOUL.md"));
    assert_eq!(skill_dirs(&config, HOME), vec!["/home/u/.r2/agents/cfo/skills", "/home/u/.r2/skills"]);
    let (full, sections) =
        build_system_prompt_with_home(&config, &vec![], Some("分身的人格"), Some("全局的人格"), None);
    assert!(full.contains("[SOUL.md 分身人格]\n分身的人格"));
    assert!(!full.contains("全局"));
    assert_eq!(sections.soul.as_deref(), Some("分身的人格"));
}

#[test]
fn the_global_personality_stands_in() {
    let mut config = Config::default_config();
    config.agent.persona_dir = Some("/home/u/.r2/agents/cfo".into());
    for own in [None, Some(" \n")] {
        let (full, sections) = build_system_prompt_with_home(&config, &vec![], own, Some("全局的人格"), None);
        assert!(full.contains("[SOUL.md 全局人格]\n全局的人格"));
        assert!(!full.contains("[SOUL.md 分身人格]"));
        assert_eq!(sections.soul.as_deref(), Some("全局的人格"));
    }
    // 没有分身时，分身的文件不起作用
    let main = Config::default_config();
    let (full, _) = build_system_prompt_with_home(&main, &vec![], Some("分身的人格"), None, None);
    assert!(!full.contains("[SOUL.md"));
}

#[test]
fn skills_are_listed() {
    assert_eq!(scan_skills_layer(&vec![]), None);
    let skill = |name: &str, desc: &str| {
        (name.to_string(), Some(format!("---\nname: {name}\ndescription: {desc}\n---\n")))
    };
    let layer =
        scan_skills_layer(&vec![skill("b", "private b"), skill("a", "do a"), skill("b", "shared b")]).unwrap();
    let a = layer.find("do a").unwrap();
    let b = layer.find("private b").unwrap();
    assert!(a < b);
    assert!(!layer.contains("shared b"));
    let own = [skill("b", "own b"), skill("d", "own d")];
    let shared = [skill("b", "shared b"), skill("a", "do a"), skill("c", "do c")];
    let one = vec![own[0].clone(), own[1].clone(), shared[0].clone(), shared[1].clone(), shared[2].clone()];
    let two = vec![own[1].clone(), own[0].clone(), shared[2].clone(), shared[0].clone(), shared[1].clone()];
    assert_eq!(scan_skills_layer(&one), scan_skills_layer(&two));
    let (full, sections) =
        build_system_prompt_with_home(&Config::default_config(), &vec![skill("a", "do a")], None, None, None);
    assert!(full.contains("[已安装技能]\n"));
    assert!(sections.skills.is_some());
    let _ = Message::plain(Role::User, "");
}
