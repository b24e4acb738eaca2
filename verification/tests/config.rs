//! The configuration and the registry of models.

use r2_core::config::{
    apply_overrides, check_api_key, expand_tilde, upsert_server, Config, McpServerConfig, SandboxLevel,
};
use r2_core::models::{estimate_cost, format_tokens, lookup, lookup_in, registry};
use r2_core::types::UsageStats;

const HOME: &str = "/home/u";

fn full() -> Config {
    let mut c = Config::default_config();
    c.model.provider = "openai_compat".into();
    c.model.openai_compat.base_url = "https://open.bigmodel.cn/api/coding/paas/v4".into();
    c.model.openai_compat.api_key = "sk-xxx".into();
    c.model.openai_compat.model = "glm-5.2".into();
    c.agent.max_turns = 50;
    c.agent.max_total_tokens = 500000;
    c.agent.work_dir = ".".into();
    c.context.l2_summary_model = "glm-4.5-flash".into();
    c.sandbox.max_processes = 10;
    c.session.dir = "~/.r2/sessions".into();
    c
}

#[test]
fn test_default_config() {
    let config = Config::default_config();
    assert_eq!(config.model.provider, "openai_compat");
    assert_eq!(config.agent.max_turns, 50);
    assert_eq!(config.sandbox.level, "container");
}

#[test]
fn test_auto_budget_known_model() {
    // 不显式设置 max_total_tokens（默认 0=自动）：mock 模型 → 窗口 8192
    let mut config = Config::default_config();
    config.model.openai_compat.model = "mock".into();
    config.post_process(Some(HOME)).unwrap();
    assert_eq!(config.agent.max_total_tokens, 8_192);
}

#[test]
fn test_auto_budget_unknown_model_fallback() {
    let mut config = Config::default_config();
    config.model.openai_compat.model = "no-such-model-xyz".into();
    config.post_process(Some(HOME)).unwrap();
    assert_eq!(config.agent.max_total_tokens, 128_000);
}

#[test]
fn test_auto_budget_explicit_not_overridden() {
    // 显式设置不受自动推导影响（模型是 glm-5.2，窗口 200K，显式 500K 保留）
    let mut config = full();
    config.post_process(Some(HOME)).unwrap();
    assert_eq!(config.agent.max_total_tokens, 500_000);
    // 幂等：再调一次也不变
    config.resolve_auto_budget();
    assert_eq!(config.agent.max_total_tokens, 500_000);
}

#[test]
fn test_invalid_sandbox_level() {
    let mut config = full();
    config.sandbox.level = "docker".into();
    let result = config.post_process(Some(HOME));
    assert!(result.is_err());
    assert!(result.unwrap_err().contains("docker"));
}

#[test]
fn test_tilde_expansion() {
    let mut config = full();
    config.post_process(Some(HOME)).unwrap();
    assert_eq!(config.session.dir, format!("{}/.r2/sessions", HOME));
    assert!(!config.session.dir.contains('~'));
}

#[test]
fn test_invalid_provider() {
    let mut config = full();
    config.model.provider = "bad_provider".into();
    let result = config.post_process(Some(HOME));
    assert!(result.is_err());
    let err = result.unwrap_err();
    assert!(err.contains("bad_provider"));
    // 出错时配置不变
    assert_eq!(config.session.dir, "~/.r2/sessions");
}

#[test]
fn test_embedding_config_defaults() {
    // 默认 hash 后端
    let config = Config::default_config();
    assert_eq!(config.context.l3_embedding, "hash");
    assert!(config.context.embedding.base_url.is_empty());
    assert!(config.context.embedding.api_key.is_empty());
    assert!(config.context.embedding.model.is_empty());
}

#[test]
fn test_missing_fields_use_defaults() {
    let mut config = Config::default_config();
    config.model.provider = "anthropic".into();
    config.post_process(Some(HOME)).unwrap();
    assert_eq!(config.model.provider, "anthropic");
    // 缺失字段应使用默认值
    assert_eq!(config.agent.max_turns, 50);
    // max_total_tokens 默认 0（自动）：anthropic 默认模型不在注册表 → 兜底 128K
    assert_eq!(config.agent.max_total_tokens, 128_000);
    assert_eq!(config.sandbox.level, "container");
    assert_eq!(config.sandbox.bash_timeout_secs, 30);
    assert_eq!(config.model.anthropic.base_url, "https://api.anthropic.com");
}

#[test]
fn test_override_model_openai_compat() {
    let mut config = Config::default_config();
    apply_overrides(&mut config, Some("glm-5.2"), None, Some(HOME));
    assert_eq!(config.model.openai_compat.model, "glm-5.2");
    // anthropic 侧不受影响
    assert_ne!(config.model.anthropic.model, "glm-5.2");
}

#[test]
fn test_override_model_anthropic() {
    let mut config = Config::default_config();
    config.model.provider = "anthropic".to_string();
    apply_overrides(&mut config, Some("opus-4"), None, Some(HOME));
    assert_eq!(config.model.anthropic.model, "opus-4");
}

#[test]
fn test_override_work_dir_tilde() {
    let mut config = Config::default_config();
    apply_overrides(&mut config, None, Some("~/proj"), Some(HOME));
    assert_eq!(config.agent.work_dir, format!("{HOME}/proj"));
}

#[test]
fn test_sandbox_new_fields_defaults() {
    let config = Config::default_config();
    assert!(config.sandbox.cgroup);
    assert!(!config.sandbox.bash_restrict_workdir);
}

#[test]
fn test_mcp_config_defaults_empty() {
    // 无 mcp 字段：servers 默认为空
    let config = Config::default_config();
    assert!(config.mcp.servers.is_empty());
}

#[test]
fn test_override_none_keeps_config() {
    let mut config = Config::default_config();
    let model_before = config.model.openai_compat.model.clone();
    let dir_before = config.agent.work_dir.clone();
    apply_overrides(&mut config, None, None, Some(HOME));
    assert_eq!(config.model.openai_compat.model, model_before);
    assert_eq!(config.agent.work_dir, dir_before);
}

#[test]
fn homes_are_expanded() {
    assert_eq!(expand_tilde("~", Some(HOME)), HOME);
    assert_eq!(expand_tilde("~x", Some(HOME)), "~x");
    assert_eq!(expand_tilde("~/x", None), "~/x");
    assert_eq!(expand_tilde("/x", Some(HOME)), "/x");
}

#[test]
fn levels_and_keys() {
    assert!(matches!(SandboxLevel::parse("off"), Ok(SandboxLevel::Off)));
    assert!(matches!(SandboxLevel::parse("strict"), Ok(SandboxLevel::Strict)));
    assert!(SandboxLevel::parse("Strict").is_err());
    let mut c = Config::default_config();
    assert!(!check_api_key(&c));
    c.model.openai_compat.api_key = "k".into();
    assert!(check_api_key(&c));
    c.model.provider = "anthropic".into();
    assert!(!check_api_key(&c));
    c.model.provider = "other".into();
    assert!(check_api_key(&c));
}

#[test]
fn servers_are_replaced_by_name() {
    let s = |n: &str, c: &str| McpServerConfig { name: n.into(), command: c.into(), args: vec![] };
    let v = upsert_server(vec![s("a", "1"), s("b", "2")], &s("b", "3"));
    let v = upsert_server(v, &s("c", "4"));
    let cmds: Vec<&str> = v.iter().map(|x| x.command.as_str()).collect();
    assert_eq!(cmds, vec!["1", "3", "4"]);
    let again = upsert_server(v, &s("c", "4"));
    assert_eq!(again.len(), 3);
}

#[test]
fn test_lookup_exact() {
    let info = lookup("glm-5.2").unwrap();
    assert_eq!(info.key, "glm-5.2");
    assert_eq!(info.context_window, 200_000);
    assert_eq!(info.provider_hint, "zhipu");
    assert!(info.tool_support);
}

#[test]
fn test_lookup_contains_and_case() {
    // 包含命中：带日期后缀
    let info = lookup("glm-5.2-0520").unwrap();
    assert_eq!(info.key, "glm-5.2");
    // 大小写不敏感
    let info = lookup("GLM-5.2").unwrap();
    assert_eq!(info.key, "glm-5.2");
    let info = lookup("Gpt-5.2").unwrap();
    assert_eq!(info.key, "gpt-5.2");
}

#[test]
fn test_lookup_longest_key_wins() {
    // glm-5.2-flash 也包含 glm-5.2，应命中更具体的 flash
    let info = lookup("glm-5.2-flash").unwrap();
    assert_eq!(info.key, "glm-5.2-flash");
    assert_eq!(info.context_window, 128_000);
    let info = lookup("gpt-5.2-mini").unwrap();
    assert_eq!(info.key, "gpt-5.2-mini");
}

#[test]
fn test_lookup_miss() {
    assert!(lookup("no-such-model-xyz").is_none());
    assert!(lookup("").is_none());
    assert!(lookup_in(&vec![], "glm-5.2").is_none());
}

fn usage(input: u64, output: u64) -> UsageStats {
    UsageStats { input_tokens: input, output_tokens: output, cached_tokens: 0, llm_calls: 1 }
}

fn yuan(units: u128) -> f64 {
    units as f64 / 1e8
}

#[test]
fn test_estimate_cost_known() {
    // glm-5.2：输入 4 元/M，输出 16 元/M
    let cost = yuan(estimate_cost("glm-5.2", &usage(1_000_000, 1_000_000)).unwrap());
    assert!((cost - 20.0).abs() < 1e-9);

    // 小量级：输入 12_000，输出 4_500 → 0.048 + 0.072 = 0.12
    let cost = yuan(estimate_cost("glm-5.2", &usage(12_000, 4_500)).unwrap());
    assert!((cost - 0.12).abs() < 1e-9);

    // mock 价格为 0：有命中但成本为 0
    let cost = yuan(estimate_cost("mock", &usage(12_000, 4_500)).unwrap());
    assert!((cost - 0.0).abs() < 1e-9);
}

#[test]
fn test_estimate_cost_unknown() {
    assert!(estimate_cost("no-such-model", &UsageStats::default()).is_none());
}

#[test]
fn test_format_tokens() {
    assert_eq!(format_tokens(999), "999");
    assert_eq!(format_tokens(12_300), "12.3k");
    assert_eq!(format_tokens(1_000), "1.0k");
    assert_eq!(format_tokens(1_000_000), "1.0M");
}

#[test]
fn windows_are_positive() {
    assert!(registry().iter().all(|m| m.context_window >= 8_192));
}

#[test]
fn tokens_are_rounded_as_written() {
    // 与 {:.1} 的写法一致
    for n in [1_000, 1_049, 1_050, 1_051, 1_150, 1_250, 12_349, 12_350, 999_949, 999_950, 999_999] {
        assert_eq!(format_tokens(n), format!("{:.1}k", n as f64 / 1_000.0), "{n}");
    }
    for n in [1_000_000, 1_050_000, 1_150_000, 1_250_000, 7_777_777, 123_456_789] {
        assert_eq!(format_tokens(n), format!("{:.1}M", n as f64 / 1_000_000.0), "{n}");
    }
}
