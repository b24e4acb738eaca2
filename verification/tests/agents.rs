//! Agent profiles and their lifecycle.

use r2_core::agents::{
    approve, check_saved_name, draft_profile, draft_profile_at, list_profiles, load_profile, profile_dir, profile_json,
    reject, remove_profile, toml_path, valid_name, ChannelFeishu,
};

#[test]
fn agents_test_valid_name() {
    assert!(valid_name("cfo"));
    assert!(valid_name("code-monkey_2"));
    assert!(!valid_name("main"));
    assert!(!valid_name("MAIN"));
    assert!(!valid_name(""));
    assert!(!valid_name("a/b"));
    assert!(!valid_name(".."));
    assert!(!valid_name(&"x".repeat(25)));
}

#[test]
fn test_draft_always_pending() {
    let p = draft_profile("cfo", false, "CFO 参谋", "", "管钱", "你是谨慎的 CFO。").unwrap();
    assert_eq!(p.state, "pending"); // 信任模型：起草恒 pending
    // 同名拒绝
    assert!(draft_profile("cfo", true, "x", "", "y", "z").is_err());
}

#[test]
fn drafts_tell_what_is_wrong() {
    let err = |name: &str, exists: bool, display: &str, desc: &str, soul: &str| {
        draft_profile_at(name, exists, display, "", desc, soul, 1).unwrap_err()
    };
    assert_eq!(err("a/b", false, "", "", ""), "名字必须是 1-24 位字母/数字/-/_（main 保留）");
    assert_eq!(err("cfo", true, "", "", ""), "已存在同名 agent：cfo（换个名字或先删除旧的）");
    assert_eq!(err("cfo", false, &"名".repeat(33), "", ""), "display_name 最长 32 字");
    assert_eq!(err("cfo", false, "", &"d".repeat(201), ""), "description 最长 200 字");
    assert_eq!(err("cfo", false, "", "", &"s".repeat(8001)), "SOUL 人格最长 8000 字");
    let p = draft_profile_at("cfo", false, &"名".repeat(32), "m", "d", "s", 9).unwrap();
    assert_eq!((p.created_ts, p.model.as_str()), (9, "m"));
    assert_eq!(p.channel_feishu.dm_policy, "deny_all");
}

#[test]
fn test_lifecycle() {
    let p = draft_profile("bob", false, "Bob", "glm-5.2-flash", "干活", "soul").unwrap();
    // 非 pending 不可重复批准
    let p = approve("bob", Some(p)).unwrap();
    assert_eq!(p.state, "active");
    assert!(approve("bob", Some(p.clone())).is_err());
    // active 删除需 force
    let p = Some(p);
    assert!(remove_profile("bob", &p, true, false).is_err());
    assert!(remove_profile("bob", &p, true, true).is_ok());
    assert_eq!(remove_profile("bob", &None, false, true).unwrap_err(), "agent 不存在：bob");
    assert_eq!(remove_profile("a/b", &None, true, true).unwrap_err(), "非法档案名");
    assert!(approve("ghost", None).is_err());
}

#[test]
fn test_reject_then_list() {
    let x1 = draft_profile("x1", false, "X", "", "", "").unwrap();
    let x2 = draft_profile("x2", false, "Y", "", "", "").unwrap();
    let x1 = reject("x1", Some(x1)).unwrap();
    let list = list_profiles(vec![x2, x1]);
    assert_eq!(list.len(), 2);
    assert!(list.iter().any(|p| p.name == "x1" && p.state == "rejected"));
    assert!(list.iter().any(|p| p.name == "x2" && p.state == "pending"));
    // 按名字排序
    assert_eq!(list[0].name, "x1");
    // 已拒绝的不可再批准
    assert!(approve("x1", Some(list[0].clone())).is_err());
}

#[test]
fn profiles_are_loaded_by_directory() {
    let p = draft_profile_at("cfo", false, "", "", "", "", 1).unwrap();
    // 目录名为准
    assert_eq!(load_profile("bob", Some(p.clone())).unwrap().name, "bob");
    assert!(load_profile("main", Some(p.clone())).is_none());
    assert!(load_profile("bob", None).is_none());
    assert_eq!(profile_dir("/h", "cfo"), "/h/.r2/agents/cfo");
    assert_eq!(toml_path("/h", "cfo"), "/h/.r2/agents/cfo/AGENT.toml");
    assert!(check_saved_name(&p).is_ok());
    let mut bad = p.clone();
    bad.name = "a/b".into();
    assert_eq!(check_saved_name(&bad).unwrap_err(), "非法档案名：a/b");
    assert_eq!(profile_json(&p).get_str("state"), Some("pending"));
    let cf = ChannelFeishu::default();
    assert_eq!(cf.effective_policy().0, "deny_all");
}
