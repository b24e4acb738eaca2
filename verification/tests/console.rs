//! The console: messages from the browser, names, uploads and lists.

use r2_core::agents::{self, AgentProfile, ChannelFeishu, MAIN};
use r2_core::channels::ChannelStatus;
use r2_core::client::{parse_client_msg, read_client_msg, ClientMsg, SandboxLimits};
use r2_core::config::{apply_persona, Config, McpServerConfig};
use r2_core::console::{
    api_growth, check_agent_switch, check_delete, check_fork, check_switch, check_upload_size, edit_profile,
    file_name, get_agent_files, group_entries, growth_skill_json, is_allowed_upload, list_skills, main_profile_json,
    plan_agent_files, prompt_file_path, prompt_file_reply, session_dir_for, session_history_json,
    sessions_with_groups, skill_preview, skills_dirs, state_json, success_rate, summary_json, tool_json, upload_name,
    upload_path, valid_name, AgentFilesPlan, GroupFound, PromptQueue, SessionSummary, SkillEntry, StateParts,
    MAX_UPLOAD,
};
use r2_core::evolution::{event_at, SkillUseStat};
use r2_core::groups::{new_group, GroupEvent};
use r2_core::json::Json;
use r2_core::prompt::build_system_prompt_with_home;
use r2_core::router::{
    approved_notes, branched_notes, channel_status_json, channel_test_json, created_notes, error_json,
    group_event_json, limit_settings, limits_notes, model_notes, prompt_notes, queued_json, rejected_notes,
    removed_notes, resumed_notes, route, set_limits, steered_notes, task_notes, task_request, task_target,
    warming_json, Note, PromptEnd, Request, TaskVerb,
};
use r2_core::types::{Message, Role, ToolCall};

#[test]
fn test_parse_channel_msgs() {
    match parse_client_msg(r#"{"t":"channel_set","agent":"cfo","config":{"enabled":true,"app_id":"cli_1"}}"#).unwrap() {
        ClientMsg::ChannelSet { agent, config } => {
            assert_eq!(agent, "cfo");
            assert_eq!(config.get_str("app_id"), Some("cli_1"));
        }
        _ => panic!("应为 ChannelSet"),
    }
    match parse_client_msg(r#"{"t":"channel_test","agent":"cfo"}"#).unwrap() {
        ClientMsg::ChannelTest(agent) => assert_eq!(agent, "cfo"),
        _ => panic!("应为 ChannelTest"),
    }
    // 缺字段 → 报错
    assert!(parse_client_msg(r#"{"t":"channel_set","agent":"cfo"}"#).is_err());
    assert!(parse_client_msg(r#"{"t":"channel_test"}"#).is_err());
}

#[test]
fn test_upload_extension_whitelist() {
    // 白名单内（大小写不敏感）
    for name in [
        "a.txt", "b.md", "c.rs", "d.py", "e.js", "f.ts", "g.json", "h.csv", "i.toml", "j.yaml", "k.yml", "l.log", "M.MD",
    ] {
        assert!(is_allowed_upload(name), "{name} 应被允许");
    }
    // 白名单外 / 无扩展名
    for name in ["x.exe", "y.png", "z.bin", "noext", "w.html", ".hidden"] {
        assert!(!is_allowed_upload(name), "{name} 应被拒绝");
    }
}

#[test]
fn test_parse_prompt_and_steer() {
    match parse_client_msg(r#"{"t":"prompt","input":"你好"}"#).unwrap() {
        ClientMsg::Prompt(input) => assert_eq!(input, "你好"),
        _ => panic!("应为 Prompt"),
    }
    match parse_client_msg(r#"{"t":"steer","text":"改成诗"}"#).unwrap() {
        ClientMsg::Steer(text) => assert_eq!(text, "改成诗"),
        _ => panic!("应为 Steer"),
    }
    // 缺 input 字段 → 报错
    assert!(parse_client_msg(r#"{"t":"prompt"}"#).is_err());
}

#[test]
fn test_parse_garbage_and_unknown() {
    assert!(parse_client_msg("这不是 JSON {{{").is_err());
    assert!(parse_client_msg(r#"{"t":"fly"}"#).is_err());
    assert!(parse_client_msg(r#"{"foo":1}"#).is_err());
    assert!(parse_client_msg("").is_err());
}

#[test]
fn test_parse_fork_upto_validation() {
    // 不带 upto
    match parse_client_msg(r#"{"t":"fork","parent":"abc-123"}"#).unwrap() {
        ClientMsg::Fork { parent, upto } => {
            assert_eq!(parent, "abc-123");
            assert_eq!(upto, None);
        }
        _ => panic!("应为 Fork"),
    }
    // upto 为 null → None
    match parse_client_msg(r#"{"t":"fork","parent":"p","upto":null}"#).unwrap() {
        ClientMsg::Fork { upto, .. } => assert_eq!(upto, None),
        _ => panic!("应为 Fork"),
    }
    // upto 为非负整数
    match parse_client_msg(r#"{"t":"fork","parent":"p","upto":5}"#).unwrap() {
        ClientMsg::Fork { upto, .. } => assert_eq!(upto, Some(5)),
        _ => panic!("应为 Fork"),
    }
    // upto 为负数 / 字符串 / 浮点 → 报错
    assert!(parse_client_msg(r#"{"t":"fork","parent":"p","upto":-1}"#).is_err());
    assert!(parse_client_msg(r#"{"t":"fork","parent":"p","upto":"5"}"#).is_err());
    assert!(parse_client_msg(r#"{"t":"fork","parent":"p","upto":1.5}"#).is_err());
    // 缺 parent → 报错
    assert!(parse_client_msg(r#"{"t":"fork","upto":3}"#).is_err());
}

#[test]
fn test_parse_other_msgs() {
    assert!(matches!(parse_client_msg(r#"{"t":"new_session"}"#).unwrap(), ClientMsg::NewSession));
    match parse_client_msg(r#"{"t":"switch","id":"s1"}"#).unwrap() {
        ClientMsg::Switch(id) => assert_eq!(id, "s1"),
        _ => panic!("应为 Switch"),
    }
    match parse_client_msg(r#"{"t":"delete_session","id":"s2"}"#).unwrap() {
        ClientMsg::DeleteSession(id) => assert_eq!(id, "s2"),
        _ => panic!("应为 DeleteSession"),
    }
    match parse_client_msg(r#"{"t":"set_model","model":"glm-5.2"}"#).unwrap() {
        ClientMsg::SetModel(m) => assert_eq!(m, "glm-5.2"),
        _ => panic!("应为 SetModel"),
    }
}

#[test]
fn test_parse_agent_msgs() {
    match parse_client_msg(r#"{"t":"agent_approve","name":"cfo"}"#).unwrap() {
        ClientMsg::AgentApprove(n) => assert_eq!(n, "cfo"),
        _ => panic!("应为 AgentApprove"),
    }
    match parse_client_msg(r#"{"t":"agent_reject","name":"bob"}"#).unwrap() {
        ClientMsg::AgentReject(n) => assert_eq!(n, "bob"),
        _ => panic!("应为 AgentReject"),
    }
    match parse_client_msg(r#"{"t":"agent_switch","name":"main"}"#).unwrap() {
        ClientMsg::AgentSwitch(n) => assert_eq!(n, "main"),
        _ => panic!("应为 AgentSwitch"),
    }
    // 缺 name 字段 → 报错
    assert!(parse_client_msg(r#"{"t":"agent_approve"}"#).is_err());
    assert!(parse_client_msg(r#"{"t":"agent_reject"}"#).is_err());
    assert!(parse_client_msg(r#"{"t":"agent_switch"}"#).is_err());
}

#[test]
fn test_parse_group_create() {
    match parse_client_msg(
        r#"{"t":"group_create","title":"评审会","members":[{"name":"cfo","display_name":"CFO"},{"name":"cto"}]}"#,
    )
    .unwrap()
    {
        ClientMsg::GroupCreate { title, members } => {
            assert_eq!(title, "评审会");
            assert_eq!(
                members,
                vec![("cfo".to_string(), "CFO".to_string()), ("cto".to_string(), String::new())]
            );
        }
        _ => panic!("应为 GroupCreate"),
    }
    // 空 members / 缺 title / members 非数组 → 报错
    assert!(parse_client_msg(r#"{"t":"group_create","title":"t","members":[]}"#).is_err());
    assert!(parse_client_msg(r#"{"t":"group_create","members":[{"name":"cfo"}]}"#).is_err());
    assert!(parse_client_msg(r#"{"t":"group_create","title":"t","members":"cfo"}"#).is_err());
    assert!(parse_client_msg(r#"{"t":"group_create","title":"t","members":[{"display_name":"x"}]}"#).is_err());
}

#[test]
fn test_parse_group_msgs() {
    match parse_client_msg(r#"{"t":"group_prompt","id":"group-a","text":"大家好"}"#).unwrap() {
        ClientMsg::GroupPrompt { id, text } => {
            assert_eq!(id, "group-a");
            assert_eq!(text, "大家好");
        }
        _ => panic!("应为 GroupPrompt"),
    }
    match parse_client_msg(r#"{"t":"group_discuss","id":"group-a","topic":"预算"}"#).unwrap() {
        ClientMsg::GroupDiscuss { id, topic } => {
            assert_eq!(id, "group-a");
            assert_eq!(topic, "预算");
        }
        _ => panic!("应为 GroupDiscuss"),
    }
    match parse_client_msg(r#"{"t":"group_delegate","id":"group-a","topic":"年报","lead":"cfo"}"#).unwrap() {
        ClientMsg::GroupDelegate { id, topic, lead } => {
            assert_eq!(id, "group-a");
            assert_eq!(topic, "年报");
            assert_eq!(lead, "cfo");
        }
        _ => panic!("应为 GroupDelegate"),
    }
    assert!(matches!(parse_client_msg(r#"{"t":"group_pause","id":"group-a"}"#).unwrap(), ClientMsg::GroupPause(_)));
    assert!(matches!(parse_client_msg(r#"{"t":"group_stop","id":"group-a"}"#).unwrap(), ClientMsg::GroupStop(_)));
    assert!(matches!(
        parse_client_msg(r#"{"t":"group_revoke_lead","id":"group-a"}"#).unwrap(),
        ClientMsg::GroupRevokeLead(_)
    ));
    assert!(matches!(parse_client_msg(r#"{"t":"group_summary","id":"group-a"}"#).unwrap(), ClientMsg::GroupSummary(_)));
    assert!(matches!(parse_client_msg(r#"{"t":"group_open","id":"group-a"}"#).unwrap(), ClientMsg::GroupOpen(_)));
    match parse_client_msg(r#"{"t":"group_subtask_approve","id":"group-a","to":"cto"}"#).unwrap() {
        ClientMsg::GroupSubtaskApprove { id, to } => {
            assert_eq!(id, "group-a");
            assert_eq!(to, "cto");
        }
        _ => panic!("应为 GroupSubtaskApprove"),
    }
    // 缺字段 → 报错
    for bad in [
        r#"{"t":"group_prompt","id":"group-a"}"#,
        r#"{"t":"group_discuss","id":"group-a"}"#,
        r#"{"t":"group_delegate","id":"group-a","topic":"x"}"#,
        r#"{"t":"group_pause"}"#,
        r#"{"t":"group_open"}"#,
        r#"{"t":"group_subtask_approve","id":"group-a"}"#,
    ] {
        assert!(parse_client_msg(bad).is_err(), "{bad} 应报错");
    }
}

#[test]
fn messages_tell_what_is_missing() {
    assert_eq!(parse_client_msg(r#"{"t":"switch"}"#).unwrap_err(), "缺少字符串字段 id");
    assert_eq!(parse_client_msg(r#"{"x":1}"#).unwrap_err(), "缺少字符串字段 t");
    assert_eq!(parse_client_msg(r#"{"t":"fly"}"#).unwrap_err(), "未知消息类型：fly");
    assert_eq!(parse_client_msg(r#"{"t":"fork","parent":"p","upto":-1}"#).unwrap_err(), "upto 必须为非负整数");
    assert_eq!(parse_client_msg(r#"{"t":"channel_set","agent":"a"}"#).unwrap_err(), "缺少字段 config");
    assert_eq!(
        parse_client_msg(r#"{"t":"group_create","title":"t","members":[]}"#).unwrap_err(),
        "members 至少包含 1 个 agent 分身"
    );
    assert_eq!(
        parse_client_msg(r#"{"t":"group_create","title":"t","members":[{}]}"#).unwrap_err(),
        "members[] 缺少字符串字段 name"
    );
    assert_eq!(parse_client_msg(r#"{"t":"group_create","title":"t"}"#).unwrap_err(), "缺少数组字段 members");
    assert_eq!(
        parse_client_msg(r#"{"t":"sandbox_set","bash_timeout_secs":1}"#).unwrap_err(),
        "缺少数字字段 max_processes"
    );
    assert!(parse_client_msg("{").unwrap_err().starts_with("JSON 解析失败："));
}

#[test]
fn every_type_of_message_is_read() {
    for (t, key) in [
        ("task_approve", "id"),
        ("task_reject", "id"),
        ("task_pause", "id"),
        ("task_resume", "id"),
        ("task_delete", "id"),
        ("set_profile", "name"),
    ] {
        let v = Json::obj().with("t", Json::text(t)).with(key, Json::text("x"));
        let m = read_client_msg(&v).unwrap();
        match (t, m) {
            ("task_approve", ClientMsg::TaskApprove(s)) => assert_eq!(s, "x"),
            ("task_reject", ClientMsg::TaskReject(s)) => assert_eq!(s, "x"),
            ("task_pause", ClientMsg::TaskPause(s)) => assert_eq!(s, "x"),
            ("task_resume", ClientMsg::TaskResume(s)) => assert_eq!(s, "x"),
            ("task_delete", ClientMsg::TaskDelete(s)) => assert_eq!(s, "x"),
            ("set_profile", ClientMsg::SetProfile(s)) => assert_eq!(s, "x"),
            _ => panic!("{t}"),
        }
    }
    let text = r#"{"t":"sandbox_set","bash_timeout_secs":45,"max_processes":3,"max_memory_mb":256,
        "cpu_time_secs":9,"max_file_size_mb":7,"cgroup_memory_mb":4294967297}"#;
    match parse_client_msg(text).unwrap() {
        ClientMsg::SandboxSet(l) => {
            assert_eq!(l.bash_timeout_secs, 45);
            assert_eq!(l.max_processes, 3);
            assert_eq!(l.max_memory_mb, 256);
            assert_eq!(l.cpu_time_secs, 9);
            assert_eq!(l.max_file_size_mb, 7);
            // 超出 32 位的值取低 32 位
            assert_eq!(l.cgroup_memory_mb, 1);
        }
        _ => panic!("应为 SandboxSet"),
    }
}

#[test]
fn web_test_valid_name() {
    assert!(valid_name("abc-123_def.skill"));
    assert!(!valid_name(""));
    assert!(!valid_name("../etc"));
    assert!(!valid_name("a/b"));
    assert!(!valid_name("a\\b"));
    assert!(!valid_name(".."));
}

#[test]
fn file_names_of_paths() {
    assert_eq!(file_name("a/b/c.txt"), Some("c.txt".to_string()));
    assert_eq!(file_name("c.txt/"), Some("c.txt".to_string()));
    assert_eq!(file_name("a/."), Some("a".to_string()));
    assert_eq!(file_name("a/.."), None);
    assert_eq!(file_name(""), None);
    assert_eq!(file_name("/"), None);
    assert_eq!(file_name("."), None);
    for p in ["a/b/c.txt", "c.txt/", "a/.", "a/..", "", "/", ".", "x//y", "./z"] {
        let std = std::path::Path::new(p).file_name().and_then(|s| s.to_str()).map(String::from);
        assert_eq!(file_name(p), std, "{p}");
    }
}

#[test]
fn uploads_keep_only_the_file_name() {
    assert_eq!(upload_name("../../etc/notes.md").unwrap(), "notes.md");
    assert_eq!(upload_name("x.exe").unwrap_err(), "不允许的文件类型：x.exe");
    assert_eq!(upload_name("..").unwrap_err(), "不允许的文件类型：");
    assert!(check_upload_size(MAX_UPLOAD).is_ok());
    assert_eq!(check_upload_size(MAX_UPLOAD + 1).unwrap_err(), "文件超过 10MB 上限");
    assert_eq!(MAX_UPLOAD, 10 * 1024 * 1024);
    assert_eq!(upload_path(1700, "a.md"), "uploads/1700_a.md");
}

#[test]
fn files_behind_the_prompt() {
    assert_eq!(prompt_file_path("soul", Some("/h"), "/w"), Some("/h/.r2/SOUL.md".to_string()));
    assert_eq!(prompt_file_path("agents", Some("/h"), "/w"), Some("/w/AGENTS.md".to_string()));
    assert_eq!(prompt_file_path("other", Some("/h"), "/w"), None);
    assert_eq!(skills_dirs(Some("/h")), vec!["/h/.r2/skills".to_string()]);
    let r = prompt_file_reply(false, None);
    assert_eq!(r.status, 400);
    let r = prompt_file_reply(true, None);
    assert_eq!(r.status, 200);
    assert_eq!(r.body.write(), r#"{"content":"","exists":false}"#);
    let r = prompt_file_reply(true, Some("hi"));
    assert_eq!(r.body.write(), r#"{"content":"hi","exists":true}"#);
    let r = skill_preview("../x", Some("c"));
    assert_eq!(r.status, 400);
    let r = skill_preview("x", None);
    assert_eq!((r.status, r.body.write()), (404, r#"{"error":"skill 不存在：x"}"#.to_string()));
    let r = skill_preview("x", Some("c"));
    assert_eq!((r.status, r.body.write()), (200, r#"{"content":"c","name":"x"}"#.to_string()));
}

fn entry(name: &str, content: Option<&str>) -> SkillEntry {
    SkillEntry { name: name.into(), content: content.map(String::from), path: format!("/s/{name}") }
}

#[test]
fn skills_are_listed_by_name() {
    let v = list_skills(&vec![
        entry("zeta", Some("# Zeta\nbody")),
        entry("empty", None),
        entry("alpha", Some("---\ndescription: first\n---\nrest")),
        entry("alpha", Some("# later")),
    ]);
    assert_eq!(v.len(), 2);
    assert_eq!(v[0].get_str("name"), Some("alpha"));
    assert_eq!(v[0].get_str("first_line"), Some("first"));
    assert_eq!(v[1].get_str("name"), Some("zeta"));
    assert_eq!(v[1].get_str("first_line"), Some("Zeta"));
    assert_eq!(v[1].get_str("path"), Some("/s/zeta"));
}

fn profile(name: &str, model: &str) -> AgentProfile {
    agents::draft_profile_at(name, false, "", model, "", "", 7).unwrap()
}

#[test]
fn test_persona_config_overlay() {
    let home = "/tmp/home";
    let p = agents::draft_profile_at("cfo", false, "CFO 参谋", "glm-x", "管钱", "soul", 1).unwrap();
    let p = agents::approve("cfo", Some(p)).unwrap();

    // 分身叠加：persona_dir / work_dir / session.dir / 模型覆盖（openai_compat 分支）
    let mut cfg = Config::default_config();
    cfg.model.provider = "openai_compat".into();
    cfg.model.openai_compat.model = "base-model".into();
    let some = Some(p);
    apply_persona("cfo", home, &some, &vec![], &mut cfg);
    let dir = agents::profile_dir(home, "cfo");
    assert_eq!(cfg.agent.persona_dir.as_deref(), Some(dir.as_str()));
    assert_eq!(cfg.agent.work_dir, format!("{dir}/work"));
    assert_eq!(cfg.session.dir, format!("{dir}/sessions"));
    assert_eq!(cfg.model.openai_compat.model, "glm-x");

    // anthropic 分支模型覆盖
    let mut cfg = Config::default_config();
    cfg.model.provider = "anthropic".into();
    cfg.model.anthropic.model = "base-model".into();
    apply_persona("cfo", home, &some, &vec![], &mut cfg);
    assert_eq!(cfg.model.anthropic.model, "glm-x");

    // 档案 model 为空 → 不覆盖
    let plain = Some(profile("plain", ""));
    let mut cfg = Config::default_config();
    cfg.model.openai_compat.model = "keep-me".into();
    apply_persona("plain", home, &plain, &vec![], &mut cfg);
    assert_eq!(cfg.model.openai_compat.model, "keep-me");

    // main：完全不改动
    let mut cfg = Config::default_config();
    cfg.model.openai_compat.model = "keep-me".into();
    apply_persona(MAIN, home, &None, &vec![], &mut cfg);
    assert!(cfg.agent.persona_dir.is_none());
    assert_eq!(cfg.model.openai_compat.model, "keep-me");
}

#[test]
fn own_servers_replace_shared_ones_once() {
    let server = |name: &str, command: &str| McpServerConfig {
        name: name.into(),
        command: command.into(),
        args: vec![],
    };
    let mut cfg = Config::default_config();
    cfg.mcp.servers = vec![server("a", "old"), server("b", "keep")];
    let own = vec![server("a", "new")];
    apply_persona("cfo", "/h", &None, &own, &mut cfg);
    apply_persona("cfo", "/h", &None, &own, &mut cfg);
    let got: Vec<(&str, &str)> = cfg.mcp.servers.iter().map(|s| (s.name.as_str(), s.command.as_str())).collect();
    assert_eq!(got, vec![("b", "keep"), ("a", "new")]);
}

#[test]
fn test_session_dir_for_switching() {
    let home = "/tmp/home";
    assert_eq!(session_dir_for(MAIN, "/main/sessions", home), "/main/sessions");
    assert_eq!(
        session_dir_for("cfo", "/main/sessions", home),
        format!("{}/sessions", agents::profile_dir(home, "cfo"))
    );
}

fn parts(tools: Vec<Json>) -> (Config, StateParts) {
    let config = Config::default_config();
    let (_full, sections) = build_system_prompt_with_home(&config, &vec![], None, None, None);
    let parts = StateParts {
        agents: vec![profile("cfo", "m")],
        current_agent: MAIN.to_string(),
        channels: vec![],
        tasks: Json::arr(),
        history: Json::Null,
        current_session: None,
        sessions: vec![],
        tools,
        sections,
        running: false,
    };
    (config, parts)
}

#[test]
fn test_state_json_shape() {
    let (config, p) = parts(vec![tool_json("read", "读文件")]);
    let v = state_json(&config, p);
    assert!(v.get_str("model").is_some());
    assert!(v.get("agents").unwrap().as_arr().is_some());
    assert_eq!(v.get_str("current_agent"), Some(MAIN));
    assert!(v.get("sessions").unwrap().as_arr().is_some());
    let tools = v.get("tools").unwrap().as_arr().unwrap();
    assert_eq!(tools[0].get_str("name"), Some("read"));
    assert_eq!(tools[0].get("mcp").unwrap().as_bool(), Some(false));
    let sandbox = v.get("sandbox").unwrap();
    assert!(sandbox.get_str("level").is_some());
    assert!(sandbox.get_u64("max_memory_mb").is_some());
    assert!(v.get2_str("prompt_sections", "core").is_some());
    assert_eq!(v.get("running").unwrap().as_bool(), Some(false));
    assert!(matches!(v.get("current_session").unwrap(), Json::Null));
}

#[test]
fn state_shows_no_keys() {
    let (mut config, p) = parts(vec![tool_json("mcp_fs_read", "d")]);
    config.model.openai_compat.api_key = "hidden-key".into();
    config.model.anthropic.api_key = "hidden-key".into();
    let text = state_json(&config, p).write();
    assert!(!text.contains("hidden-key"));
    assert!(text.contains(r#""mcp":true"#));
}

fn summary(id: &str, ts: u64) -> SessionSummary {
    SessionSummary {
        id: id.into(),
        message_count: 2,
        first_user_preview: "hi".into(),
        last_ts: ts,
        branch_from: None,
        branch_upto: None,
    }
}

fn found(name: &str, ts: u64) -> GroupFound {
    let g = new_group("g".into(), "评审会", &[(MAIN, "主人"), ("cfo", "CFO"), ("cto", "CTO")], ts).unwrap();
    GroupFound { name: name.into(), group: Some(g), stream: vec![] }
}

#[test]
fn test_group_entries_inject() {
    let sid = "group-1".to_string();
    let entries = group_entries(&vec![
        found(&sid, 5),
        GroupFound { name: "group-broken".into(), group: None, stream: vec![] },
        found("plain", 5),
    ]);
    assert_eq!(entries.len(), 1);
    let e = &entries[0];
    assert_eq!(e.get_str("id"), Some(sid.as_str()));
    assert_eq!(e.get_str("kind"), Some("group"));
    assert_eq!(e.get_str("title"), Some("评审会"));
    assert_eq!(e.get_u64("members_count"), Some(3));
    assert_eq!(e.get_str("state"), Some("idle"));
}

#[test]
fn sessions_and_groups_by_time() {
    let list = sessions_with_groups(
        &vec![summary("old", 10), summary("new", 30), summary("same", 20)],
        &vec![found("group-1", 20), found("group-2", 40)],
    );
    let ids: Vec<&str> = list.iter().map(|v| v.get_str("id").unwrap()).collect();
    assert_eq!(ids, vec!["group-2", "new", "same", "group-1", "old"]);
    // 刚聊过的群排最前：按最后一条事件的时间，不是建群时间
    let mut talked = found("group-3", 1);
    talked.stream = vec![
        GroupEvent::Message { from: "user".into(), text: "hi".into(), ts: 2 },
        GroupEvent::Error { text: "e".into(), ts: 50 },
    ];
    let list = sessions_with_groups(&vec![summary("new", 30)], &vec![found("group-2", 40), talked]);
    let ids: Vec<&str> = list.iter().map(|v| v.get_str("id").unwrap()).collect();
    assert_eq!(ids, vec!["group-3", "group-2", "new"]);
    let mut s = summary("b", 1);
    s.branch_from = Some("p".into());
    s.branch_upto = Some(4);
    assert_eq!(
        summary_json(&s).write(),
        r#"{"branch_from":"p","branch_upto":4,"id":"b","last_ts":1,"message_count":2,"preview":"hi"}"#
    );
}

#[test]
fn history_shows_no_instructions() {
    let call = ToolCall { id: "c1".into(), name: "read".into(), arguments: "{}".into() };
    let messages = vec![
        Message::plain(Role::System, "instructions"),
        Message::plain(Role::User, "hello"),
        Message {
            role: Role::Assistant,
            content: "calling".into(),
            tool_calls: Some(vec![call]),
            tool_call_id: None,
        },
        Message { role: Role::Tool, content: "out".into(), tool_calls: None, tool_call_id: Some("c1".into()) },
    ];
    let v = session_history_json(&messages);
    let items = v.get("messages").unwrap().as_arr().unwrap();
    assert_eq!(items.len(), 3);
    assert_eq!(items[0].write(), r#"{"kind":"user","text":"hello"}"#);
    assert_eq!(
        items[1].write(),
        r#"{"kind":"assistant","text":"calling","tool_calls":[{"arguments":"{}","id":"c1","name":"read"}]}"#
    );
    assert_eq!(items[2].write(), r#"{"call_id":"c1","kind":"tool_result","text":"out"}"#);
}

#[test]
fn sessions_are_checked_by_name() {
    assert!(check_switch("s1").is_ok());
    assert_eq!(check_switch("a/b").unwrap_err(), "非法会话 id");
    assert_eq!(check_fork("..").unwrap_err(), "非法父会话 id");
    assert!(check_fork("p").is_ok());
    assert_eq!(check_delete("s1", false, Some("s2")).unwrap(), "s1.jsonl");
    assert_eq!(check_delete("../s1", false, None).unwrap_err(), "非法会话 id");
    assert_eq!(check_delete("s1", true, None).unwrap_err(), "prompt 运行中，稍后再删");
    assert_eq!(check_delete("s1", false, Some("s1")).unwrap_err(), "当前会话使用中，禁止删除");
}

#[test]
fn agents_are_switched_only_when_active() {
    let pending = profile("cfo", "");
    assert_eq!(
        check_agent_switch("cfo", Some(&pending), false).unwrap_err(),
        "agent cfo 当前状态 pending，不可切换"
    );
    let active = agents::approve("cfo", Some(pending)).unwrap();
    assert!(check_agent_switch("cfo", Some(&active), false).is_ok());
    assert_eq!(
        check_agent_switch("cfo", Some(&active), true).unwrap_err(),
        "prompt 运行中，稍后再切换 agent"
    );
    assert_eq!(check_agent_switch("ghost", None, false).unwrap_err(), "agent 不存在：ghost");
    assert!(check_agent_switch(MAIN, None, false).is_ok());
}

#[test]
fn one_prompt_waits() {
    let mut q = PromptQueue::new();
    assert_eq!(q.take("a".into(), false), Some("a".to_string()));
    assert_eq!(q.take("b".into(), true), None);
    assert_eq!(q.take("c".into(), true), None);
    assert_eq!(q.next(), Some("c".to_string()));
    assert_eq!(q.next(), None);
}

#[test]
fn agent_files() {
    assert_eq!(main_profile_json().get_str("name"), Some(MAIN));
    let r = get_agent_files(MAIN, "soul", None);
    assert_eq!((r.status, r.body.get_str("soul")), (200, Some("soul")));
    let r = get_agent_files("ghost", "", None);
    assert_eq!((r.status, r.body.as_str()), (400, Some("agent 不存在：ghost")));
    let p = profile("cfo", "m");
    let r = get_agent_files("cfo", "s", Some(&p));
    assert_eq!(r.body.get2_str("profile", "model"), Some("m"));

    let refuse = |text: &str, dir: bool| match plan_agent_files(&Json::read(text).unwrap(), dir) {
        AgentFilesPlan::Refuse(e) => e,
        _ => panic!("{text}"),
    };
    assert_eq!(refuse("{}", true), "缺少字符串字段 name");
    assert_eq!(refuse(r#"{"name":"a/b"}"#, true), "非法档案名：a/b");
    assert_eq!(refuse(r#"{"name":"cfo"}"#, false), "agent 目录不存在：cfo");
    match plan_agent_files(&Json::read(r#"{"name":"main","soul":"S"}"#).unwrap(), false) {
        AgentFilesPlan::Main { soul } => assert_eq!(soul.as_deref(), Some("S")),
        _ => panic!(),
    }
    match plan_agent_files(&Json::read(r#"{"name":"cfo"}"#).unwrap(), true) {
        AgentFilesPlan::Profile { name, soul } => assert_eq!((name.as_str(), soul), ("cfo", None)),
        _ => panic!(),
    }
    let q = edit_profile(p, &Json::read(r#"{"model":"n","description":"d","state":"active"}"#).unwrap());
    assert_eq!((q.model.as_str(), q.description.as_str(), q.display_name.as_str()), ("n", "d", ""));
    assert_eq!(q.state, "pending");
}

#[test]
fn growth_is_counted() {
    let u = SkillUseStat { count: 3, success: 2, fail: 1, last_used: 9 };
    assert_eq!(success_rate(&u), Some(66));
    assert_eq!(success_rate(&SkillUseStat::default()), None);
    assert_eq!(
        growth_skill_json("s", Some("trial"), Some(u)).write(),
        r#"{"name":"s","status":"trial","success_rate":66,"used":3}"#
    );
    assert_eq!(growth_skill_json("s", Some("?"), None).write(), r#"{"name":"s","status":"native"}"#);
    let now = 1_000_000;
    let events = vec![
        event_at("lesson", "old", "", now - 604_801),
        event_at("lesson", "edge", "", now - 604_800),
        event_at("goal", "g", "", now),
    ];
    let v = api_growth(&Some("grow".into()), vec![], &events, &vec![("x".into(), 4)], Json::arr(), now);
    assert_eq!(v.get_u64("lessons_7d"), Some(1));
    assert_eq!(v.get_u64("total_events"), Some(3));
    assert_eq!(v.get_u64("skills_count"), Some(0));
    assert_eq!(v.get_str("goal"), Some("grow"));
    assert_eq!(v.get("decayed").unwrap().as_arr().unwrap()[0].write(), r#"{"last_used":4,"name":"x"}"#);
}

#[test]
fn requests_are_routed() {
    let m = |text: &str| parse_client_msg(text).unwrap();
    match route(m(r#"{"t":"switch","id":"s1"}"#), false, None) {
        Request::Resume(id) => assert_eq!(id, "s1"),
        _ => panic!(),
    }
    match route(m(r#"{"t":"fork","parent":"../x"}"#), false, None) {
        Request::Refuse(e) => assert_eq!(e, "非法父会话 id"),
        _ => panic!(),
    }
    match route(m(r#"{"t":"fork","parent":"x","upto":3}"#), false, None) {
        Request::Branch { parent, upto } => assert_eq!((parent.as_str(), upto), ("x", Some(3))),
        _ => panic!(),
    }
    match route(m(r#"{"t":"delete_session","id":"s1"}"#), false, Some("s1")) {
        Request::Refuse(e) => assert_eq!(e, "当前会话使用中，禁止删除"),
        _ => panic!(),
    }
    match route(m(r#"{"t":"delete_session","id":"s1"}"#), false, None) {
        Request::RemoveFile(f) => assert_eq!(f, "s1.jsonl"),
        _ => panic!(),
    }
    assert!(matches!(route(m(r#"{"t":"new_session"}"#), true, None), Request::Pass(ClientMsg::NewSession)));
}

fn told(v: &[Note]) -> Vec<String> {
    v.iter()
        .map(|n| match n {
            Note::Tell(j) => format!("tell {}", j.write()),
            Note::TellAll(j) => format!("all {}", j.write()),
            Note::Sessions => "sessions".to_string(),
            Note::State => "state".to_string(),
            Note::Init => "init".to_string(),
            Note::ReloadChannels => "channels".to_string(),
        })
        .collect()
}

#[test]
fn browsers_are_told() {
    let err = |m: &str| vec![format!("tell {}", error_json(m).write())];
    assert_eq!(told(&created_notes(&Ok(()))), vec!["sessions"]);
    assert_eq!(told(&created_notes(&Err("x".into()))), err("新建会话失败：x"));
    assert_eq!(
        told(&resumed_notes(Ok(Json::arr()))),
        vec![r#"tell {"history":[],"t":"session_history"}"#, "sessions"]
    );
    assert_eq!(told(&resumed_notes(Err("x".into()))), err("切换会话失败：x"));
    assert_eq!(
        told(&branched_notes(Ok((Some("n".into()), Json::Null)))),
        vec![
            r#"tell {"id":"n","t":"forked"}"#,
            r#"tell {"history":null,"t":"session_history"}"#,
            "sessions"
        ]
    );
    assert_eq!(told(&branched_notes(Err("x".into()))), err("分叉失败：x"));
    assert_eq!(told(&removed_notes(&Ok(()))), vec!["sessions"]);
    assert_eq!(told(&removed_notes(&Err("x".into()))), err("删除失败：x"));
    assert_eq!(told(&steered_notes(None)), err("会话尚未创建"));
    assert_eq!(told(&steered_notes(Some(&Err("x".into())))), err("steer 注入失败：x"));
    assert!(steered_notes(Some(&Ok(()))).is_empty());
    assert_eq!(told(&approved_notes(&Ok(()))), vec!["channels", "state"]);
    assert_eq!(told(&approved_notes(&Err("x".into()))), err("批准 agent 失败：x"));
    assert_eq!(told(&rejected_notes(&Ok(()))), vec!["state"]);
    assert_eq!(told(&rejected_notes(&Err("x".into()))), err("拒绝 agent 失败：x"));
    assert_eq!(told(&limits_notes()), vec!["state", r#"tell {"ok":true,"t":"sandbox_set"}"#]);
    assert_eq!(
        told(&model_notes("m", None, false)),
        vec![r#"all {"model":"m","t":"model_changed"}"#]
    );
    assert_eq!(
        told(&model_notes("m", Some("x"), true)),
        vec![
            r#"all {"message":"模型已切换，但会话重建失败：x","t":"error"}"#,
            r#"all {"model":"m","t":"model_changed"}"#,
            "state"
        ]
    );
    assert_eq!(
        told(&prompt_notes(&PromptEnd::Answer { text: "a".into(), session: None })),
        vec![r#"all {"final_text":"a","session_id":null,"t":"prompt_done"}"#, "sessions"]
    );
    assert_eq!(
        told(&prompt_notes(&PromptEnd::Failed("x".into()))),
        vec![r#"all {"message":"x","t":"error"}"#, "sessions"]
    );
    assert_eq!(
        told(&prompt_notes(&PromptEnd::NoSession("x".into()))),
        vec![r#"all {"message":"创建会话失败：x","t":"error"}"#]
    );
    assert!(queued_json().write().contains("queued_prompt"));
    assert!(warming_json().write().contains("正在创建会话"));
}

#[test]
fn tasks_are_decided() {
    let m = parse_client_msg(r#"{"t":"task_approve","id":"t1"}"#).unwrap();
    assert_eq!(task_request(&m), Some((TaskVerb::Approve, "t1".to_string())));
    assert_eq!(task_request(&parse_client_msg(r#"{"t":"new_session"}"#).unwrap()), None);
    assert_eq!(task_target(TaskVerb::Approve), (Some("active"), true));
    assert_eq!(task_target(TaskVerb::Resume), (Some("active"), true));
    assert_eq!(task_target(TaskVerb::Reject), (Some("rejected"), false));
    assert_eq!(task_target(TaskVerb::Pause), (Some("paused"), false));
    assert_eq!(task_target(TaskVerb::Delete), (None, false));
    assert_eq!(
        told(&task_notes(TaskVerb::Reject, "t1", Ok(Json::arr()))),
        vec![r#"all {"id":"t1","state":"rejected","t":"task_state"}"#, r#"all {"t":"tasks","tasks":[]}"#]
    );
    assert_eq!(told(&task_notes(TaskVerb::Pause, "t1", Ok(Json::arr()))), vec![r#"all {"t":"tasks","tasks":[]}"#]);
    for (v, text) in [
        (TaskVerb::Approve, "批准失败：x"),
        (TaskVerb::Reject, "拒绝失败：x"),
        (TaskVerb::Pause, "暂停失败：x"),
        (TaskVerb::Resume, "恢复失败：x"),
        (TaskVerb::Delete, "删除失败：x"),
    ] {
        assert_eq!(told(&task_notes(v, "t1", Err("x".into()))), vec![format!("tell {}", error_json(text).write())]);
    }
}

#[test]
fn limits_are_set() {
    let l = SandboxLimits {
        bash_timeout_secs: 1,
        max_processes: 2,
        max_memory_mb: 3,
        cpu_time_secs: 4,
        max_file_size_mb: 5,
        cgroup_memory_mb: 6,
    };
    let mut cfg = Config::default_config();
    set_limits(&mut cfg, &l);
    assert_eq!(cfg.sandbox.bash_timeout_secs, 1);
    assert_eq!(cfg.sandbox.max_processes, 2);
    assert_eq!(cfg.sandbox.max_memory_mb, 3);
    assert_eq!(cfg.sandbox.cpu_time_secs, 4);
    assert_eq!(cfg.sandbox.max_file_size_mb, 5);
    assert_eq!(cfg.sandbox.cgroup_memory_mb, 6);
    assert_eq!(cfg.sandbox.level, "container");
    let pairs = limit_settings(&l);
    assert_eq!(pairs[0], ("bash_timeout_secs".to_string(), "1".to_string()));
    assert_eq!(pairs[5], ("cgroup_memory_mb".to_string(), "6".to_string()));
}

#[test]
fn other_words_to_the_browser() {
    assert_eq!(
        channel_status_json("cfo", "connected").write(),
        r#"{"agent":"cfo","status":"connected","t":"channel_status"}"#
    );
    assert_eq!(
        channel_test_json("cfo", true, "d").write(),
        r#"{"agent":"cfo","detail":"d","ok":true,"t":"channel_test"}"#
    );
    let e = r2_core::groups::GroupEvent::Summary { text: "s".into(), ts: 3 };
    assert_eq!(
        group_event_json("group-1", &e).write(),
        r#"{"event":{"text":"s","ts":3,"type":"summary"},"id":"group-1","t":"group_event"}"#
    );
    let _ = ChannelStatus::Connected;
    let _ = ChannelFeishu::default();
}
