//! The sandbox: namespaces, sessions of their own, and configuration files.

use r2_core::config::Config;
use r2_core::namespaces::{
    after_step, busybox_among, can_namespace, exec_failure_code, find_busybox, first_step, id_map, passed_code,
    prepare_min_root, ChildEnd, SandboxAction, SandboxOutput, SandboxStep, CUT_MARK, NO_BUSYBOX, OUTPUT_LIMIT,
};
use r2_core::persist::{
    group_line, persist_active_profile, persist_sandbox, sandbox_command, sandbox_expired, session_dir,
    write_session_config,
};

#[test]
fn test_can_namespace_no_panic() {
    assert!(can_namespace(true, None, None));
    let _ = can_namespace(false, None, None);
}

#[test]
fn namespaces_need_a_user_map() {
    assert!(can_namespace(false, Some("0\n"), Some("0 0 1\n")));
    assert!(!can_namespace(false, Some("1\n"), Some("0 0 1\n")));
    assert!(!can_namespace(false, None, None));
}

#[test]
fn test_find_busybox_no_panic() {
    let _ = find_busybox();
}

#[test]
fn test_prepare_min_root_structure() {
    let root = prepare_min_root("/w", Some("/bin/busybox")).expect("准备最小根");
    assert_eq!(root.root, "/w/.sandbox-root");
    assert_eq!(root.busybox, "/w/.sandbox-root/bin/busybox");
    assert!(root.links.contains(&"/w/.sandbox-root/bin/sh".to_string()));
    assert!(root.dirs.contains(&"/w/.sandbox-root/proc".to_string()));
    assert!(root.dirs.contains(&"/w/.sandbox-root/work".to_string()));
    assert!(root.dirs.contains(&"/w/.sandbox-root/tmp".to_string()));
    assert_eq!(root.devices[0].0, "/w/.sandbox-root/dev/null");
    // 1:3 = 字符设备 null
    assert_eq!(root.devices[0].1, 259);
    assert_eq!(prepare_min_root("/w", None).unwrap_err(), NO_BUSYBOX);
}

#[test]
fn busybox_is_looked_for_in_order() {
    let first = busybox_among(&vec![true, true, true]).unwrap();
    let second = busybox_among(&vec![false, true, true]).unwrap();
    assert_ne!(first, second);
    assert_eq!(busybox_among(&vec![false, false, false]), None);
}

#[test]
fn steps_lead_inside() {
    assert_eq!(first_step(true), SandboxStep::NewSpaces);
    let mut step = first_step(false);
    let mut seen = vec![step];
    while let SandboxAction::Next(n) = after_step(step, true, None) {
        step = n;
        seen.push(n);
    }
    assert_eq!(seen.len(), 12);
    assert_eq!(seen[11], SandboxStep::Execute);
    assert_eq!(after_step(SandboxStep::DenyGroups, false, None), SandboxAction::Next(SandboxStep::UserMap));
    assert_eq!(after_step(SandboxStep::UserMap, false, None), SandboxAction::Fail);
    assert_eq!(after_step(SandboxStep::MountProc, false, None), SandboxAction::Exit(125));
    assert_eq!(after_step(SandboxStep::ChangeRoot, false, None), SandboxAction::Exit(126));
    assert_eq!(after_step(SandboxStep::Execute, false, Some(2)), SandboxAction::Exit(exec_failure_code(Some(2))));
    assert_eq!(passed_code(ChildEnd::Exited(3)), 3);
    assert_eq!(passed_code(ChildEnd::Signaled(9)), 137);
    assert_eq!(passed_code(ChildEnd::Lost), 125);
    assert_eq!(id_map(1000), "0 1000 1\n");
}

#[test]
fn outputs_are_cut() {
    let mut o = SandboxOutput::new();
    o.push(b"hi\xff");
    assert!(o.wants_more() && o.can_finish());
    assert_eq!(o.finish(-1), "hi\u{fffd}\nexit_code=-1\n");
    let mut long = SandboxOutput::new();
    long.push(&vec![b'a'; OUTPUT_LIMIT + 10]);
    assert!(!long.wants_more());
    let told = long.finish(0);
    assert_eq!(told.len(), OUTPUT_LIMIT + CUT_MARK.len() + "\nexit_code=0\n".len());
    // 字符跨界时不能切
    let mut across = SandboxOutput::new();
    across.push("a".as_bytes());
    across.push("字".repeat(OUTPUT_LIMIT).as_bytes());
    assert_eq!(across.can_finish(), (OUTPUT_LIMIT - 1) % 3 == 0);
}

#[test]
fn test_session_dir_naming() {
    let d = session_dir("/tmp/x", 17, 4);
    assert!(d.contains("r2-sessions/sess-"));
    assert_eq!(d, "/tmp/x/r2-sessions/sess-17-4");
}

#[test]
fn test_write_session_config_strict_injected() {
    let parent = Config::default_config();
    let content = write_session_config(&parent, None, "/tmp/s").unwrap();
    assert!(content.contains("level = \"strict\""), "必须强制 strict：{content}");
    assert!(content.contains("max_processes = 0"), "绝不设 RLIMIT_NPROC：{content}");
    assert!(!content.contains("max_processes = 128"));
    assert!(content.contains("api_key"), "密钥段必须复制");
    assert!(content.contains(&format!("work_dir = {:?}", "/tmp/s")));
}

#[test]
fn test_write_session_config_from_source_file() {
    // 源配置文件的 model 段整段复制（含自定义字段）
    let src = "# 注释\n[model]\nprovider = \"openai_compat\"\n[model.openai_compat]\nbase_url = \"https://x\"\napi_key = \"sk-test-123\"\nmodel = \"m1\"\n\n[agent]\nwork_dir = \"/should-be-overridden\"\n";
    let parent = Config::default_config();
    let content = write_session_config(&parent, Some(src), "/tmp/s").unwrap();
    assert!(content.contains("sk-test-123"), "密钥原样复制");
    assert!(content.contains("base_url = \"https://x\""), "自定义端点保留");
    // work_dir 覆盖为会话目录
    let occurrences = content.matches("work_dir").count();
    assert_eq!(occurrences, 1, "源文件的 agent 段不得重复出现：{content}");
    assert!(content.contains(&format!("work_dir = {:?}", "/tmp/s")));
}

#[test]
fn session_files_quote_their_directory() {
    let parent = Config::default_config();
    let content = write_session_config(&parent, None, "/tmp/a\"b").unwrap();
    assert!(content.contains("work_dir = \"/tmp/a\\\"b\"\n"));
    assert_eq!(
        write_session_config(&parent, Some("[model]\nprovider = \"x\"\n"), "/s").unwrap_err(),
        "model 段缺少 api_key，中止会话生成"
    );
    let mut odd = Config::default_config();
    odd.model.provider = "odd".into();
    assert_eq!(write_session_config(&odd, None, "/s").unwrap_err(), "未知 provider：odd");
    odd.model.provider = "anthropic".into();
    assert!(write_session_config(&odd, None, "/s").unwrap().starts_with("[model]\nprovider = \"anthropic\"\n"));
}

#[test]
fn sessions_of_their_own() {
    let c = sandbox_command("做", "/s/config.toml", "/s", None, Some("/cg"));
    assert_eq!(c.args, vec!["--once", "做", "--config", "/s/config.toml"]);
    let pair = |a: &str, b: &str| (a.to_string(), b.to_string());
    assert_eq!(
        c.env,
        vec![
            pair("PATH", "/usr/local/bin:/usr/bin:/bin"),
            pair("HOME", "/s"),
            pair("TERM", "dumb"),
            pair("R2_CGROUP_JOIN", "/cg")
        ]
    );
    assert_eq!(sandbox_command("x", "c", "/s", Some("xterm"), None).env.len(), 3);
    assert_eq!(group_line("/cg", 128, 512), "  cgroup:   /cg (pids≤128, mem≤512M)");
    assert_eq!(group_line("/cg", 128, 0), "  cgroup:   /cg (pids≤128)");
    assert!(!sandbox_expired(0, u64::MAX));
    assert!(sandbox_expired(1, 1_000_000_000));
    assert!(!sandbox_expired(1, 999_999_999));
}

const FILE: &str = "# 头\n[model]\nprovider = \"x\"\nactive_profile = \"old\"  # 注\n\n[agent]\nactive_profile = \"not mine\"\n";

#[test]
fn profiles_are_set_in_place() {
    let set = persist_active_profile(FILE, "new").unwrap();
    assert_eq!(
        set,
        "# 头\n[model]\nprovider = \"x\"\nactive_profile = \"new\"\n\n[agent]\nactive_profile = \"not mine\"\n"
    );
    assert_eq!(persist_active_profile(&set, "new").unwrap(), set);
    assert_eq!(
        persist_active_profile("[model]\nprovider = \"x\"", "p").unwrap(),
        "[model]\nactive_profile = \"p\"\nprovider = \"x\"\n"
    );
    assert_eq!(
        persist_active_profile("[agent]\n", "p").unwrap_err(),
        "config.toml 缺 [model] 段，无法持久化 active_profile"
    );
}

#[test]
fn limits_are_set_in_place() {
    let v = |a: &str, b: &str| (a.to_string(), b.to_string());
    let vals = vec![v("level", "\"strict\""), v("max_processes", "5")];
    let set = persist_sandbox("[model]\nlevel = 1\n[sandbox]\nlevel = \"off\"\n# 注\n[session]\ndir = \"d\"\n", &vals);
    assert!(set.contains("[model]\nlevel = 1\n"));
    assert!(set.contains("level = \"strict\"") && set.contains("max_processes = 5") && set.contains("# 注\n"));
    assert!(!set.contains("level = \"off\""));
    assert!(set.find("max_processes").unwrap() < set.find("[session]").unwrap());
    assert_eq!(persist_sandbox(&set, &vals), set);
    let new = persist_sandbox("", &vals);
    assert!(new.contains("[sandbox]\n"));
    // 同样的键再设一次，与只设后一次相同
    let others = vec![v("level", "\"off\""), v("max_processes", "9")];
    let content = "# 头\n[sandbox]\n# 注\nlevel = \"x\"\n";
    assert_eq!(persist_sandbox(&persist_sandbox(content, &vals), &others), persist_sandbox(content, &others));
    assert_eq!(
        persist_sandbox(content, &others),
        "# 头\n[sandbox]\nmax_processes = 9\n# 注\nlevel = \"off\"\n"
    );
}
