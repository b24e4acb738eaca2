//! Growth: lessons, goals, skills.

use r2_core::evolution::{
    added_skills, append_event, check_promotion, decayed_skills, detect_lesson_clusters, detect_skill_reference,
    draft_event, draft_messages, event, event_at, find_use, flush_cjk, goal_event, goal_of, growth_json,
    growth_of_json, jaccard, key_tokens, lesson_event, list_skill_names, now_ts, now_ts_pub, parse_draft_name,
    parse_reflection, promotion_event, read_events, record_skill_use, reflection_messages, skills_event,
    snapshot_files, snapshot_result, snapshot_step, write_draft_skill, DECAY_SECS, EvolutionEvent, Promotion,
    SELF_IGNORED, SkillUseStat, SnapshotStep, TurnSignals,
};
use r2_core::skills::{read_skill_status, skill_description, skill_frontmatter_desc, write_skill_status};

#[test]
fn test_signals_summary_and_empty() {
    let mut s = TurnSignals::default();
    assert!(s.is_empty());
    s.tool_errors.push(("bash".into(), "ERROR: exit_code=2".into()));
    assert!(!s.is_empty());
    assert!(s.summary().contains("bash"));
}

#[test]
fn test_parse_reflection_formats() {
    // 正常提取
    let r = parse_reflection("LESSON: sed -i 前先备份，用 cp x x.bak\nEVIDENCE: 工具 edit 失败");
    assert_eq!(r.as_ref().unwrap().0, "sed -i 前先备份，用 cp x x.bak");
    // NO_LESSON
    assert!(parse_reflection("NO_LESSON").is_none());
    // 有 LESSON 无 EVIDENCE（宽容）
    let r2 = parse_reflection("LESSON: 路径带空格要加引号");
    assert!(r2.is_some());
    // 认知性废话不成教训格式 → None（无 LESSON 前缀）
    assert!(parse_reflection("以后要更小心").is_none());
}

#[test]
fn test_evolution_event_roundtrip() {
    let ev = EvolutionEvent {
        ts: 1787000000,
        kind: "lesson".into(),
        content: "测试教训".into(),
        evidence: "exit 1".into(),
        session_id: "s-test".into(),
    };
    let log = append_event(String::new(), &ev);
    let events = read_events(&log, 10);
    assert_eq!(events.len(), 1);
    assert_eq!(events[0].content, "测试教训");
}

#[test]
fn test_detect_skill_reference() {
    assert_eq!(
        detect_skill_reference("bash", "cat ~/.r2/skills/brainstorming/SKILL.md"),
        Some("brainstorming".into())
    );
    assert_eq!(
        detect_skill_reference("read", "{\"path\":\"skills/quant-report/SKILL.md\"}"),
        Some("quant-report".into())
    );
    assert_eq!(detect_skill_reference("bash", "ls skills/"), None);
    assert_eq!(detect_skill_reference("edit", "skills/x/SKILL.md"), None);
}

fn share(a: &Vec<String>, b: &Vec<String>) -> f64 {
    let (common, all) = jaccard(a, b);
    if all == 0 { 0.0 } else { common as f64 / all as f64 }
}

#[test]
fn test_key_tokens_jaccard() {
    let a = key_tokens("sed -i 前先备份 cp x x.bak");
    let b = key_tokens("sed -i 前先备份，用 cp 复制一份");
    let c = key_tokens("docker 网络要 inspect 看 bridge");
    assert!(share(&a, &b) > 0.4, "同主题教训应高相似");
    assert!(share(&a, &c) < 0.15, "不同主题应低相似");
}

#[test]
fn test_parse_draft_name() {
    assert_eq!(
        parse_draft_name("---\nname: auto-sed-backup\ndescription: x\n---\n正文"),
        Some("auto-sed-backup".into())
    );
    assert_eq!(parse_draft_name("---\nname: hand-written\n---"), None);
}

#[test]
fn test_draft_messages_shape() {
    let msgs = draft_messages(&vec!["教训A".into(), "教训B".into()]);
    assert_eq!(msgs.len(), 2);
    assert!(msgs[0].content.contains("禁止发明"));
}

#[test]
fn signals_in_words() {
    let mut s = TurnSignals::default();
    for i in 0..8 {
        s.tool_errors.push((format!("t{i}"), "E".into()));
        s.steers.push("改".into());
    }
    s.retries_recovered = 2;
    let text = s.summary();
    assert!(text.contains("t5") && !text.contains("t6"));
    assert_eq!(text.matches("用户中途纠正").count(), 4);
    assert!(text.ends_with("- 失败后重试成功 2 次\n"));
    let m = reflection_messages(&s, "任务");
    assert!(m[1].content.starts_with("任务摘要：任务\n\n硬信号：\n"));
}

#[test]
fn lessons_with_and_without_evidence() {
    assert_eq!(parse_reflection("LESSON: a").unwrap().1, "（信号见事件流）");
    let e = lesson_event("LESSON: a\nEVIDENCE: b", &Some("s1".into()), 7).unwrap();
    assert_eq!((e.ts, e.kind.as_str(), e.content.as_str(), e.evidence.as_str()), (7, "lesson", "a", "b"));
    assert_eq!(lesson_event("LESSON: a", &None, 7).unwrap().session_id, "unknown");
    assert!(lesson_event("NO_LESSON", &None, 7).is_none());
}

#[test]
fn events_keep_their_order() {
    let mut log = String::new();
    for i in 0..4 {
        log = append_event(log, &event_at("lesson", &format!("c{i}\n\"x\""), "e", i));
    }
    let listed = read_events("[7,\"lesson\",\"c\",\"e\",\"s\"]\n[7,\"lesson\",\"c\",\"e\"]\n", 10);
    assert_eq!(listed.len(), 1);
    assert_eq!((listed[0].ts, listed[0].content.as_str(), listed[0].session_id.as_str()), (7, "c", "s"));
    log.push_str("not json\n\n");
    let all = read_events(&log, 100);
    assert_eq!(all.len(), 4);
    let latest = read_events(&log, 2);
    assert_eq!(latest.len(), 2);
    let mut ts: Vec<u64> = latest.iter().map(|e| e.ts).collect();
    ts.sort();
    assert_eq!(ts, vec![2, 3]);
    let v = growth_json(&all[0]);
    assert_eq!(growth_of_json(&v).unwrap().content, all[0].content);
    assert_eq!(event("k", "c", "e").kind, "k");
    assert!(now_ts() > 1_600_000_000 && now_ts_pub() >= now_ts() - 5);
}

#[test]
fn goals() {
    assert_eq!(goal_of(" 学 Rust \n"), Some("学 Rust".to_string()));
    assert_eq!(goal_of(" \n"), None);
    let some = |s: &str| Some(s.to_string());
    assert_eq!(goal_event(&None, &some("a"), &None, 1).unwrap().content, "目标已设定：a");
    assert_eq!(goal_event(&some("a"), &some("b"), &None, 1).unwrap().content, "目标已更新：b");
    assert!(goal_event(&some("a"), &some("a"), &None, 1).is_none());
    assert!(goal_event(&some("a"), &None, &None, 1).is_none());
}

#[test]
fn uses_are_counted() {
    let mut all: Vec<(String, SkillUseStat)> = Vec::new();
    record_skill_use(&mut all, "a", true, 5);
    record_skill_use(&mut all, "a", false, 9);
    record_skill_use(&mut all, "b", true, 3);
    let a = find_use(&all, "a").unwrap();
    assert_eq!((a.count, a.success, a.fail, a.last_used), (2, 1, 1, 9));
    assert!(find_use(&all, "c").is_none());
    let now = DECAY_SECS + 9;
    let names = vec!["a".to_string(), "b".to_string(), "new".to_string(), ".hidden".to_string()];
    let d = decayed_skills(&names, &all, now);
    assert_eq!(d, vec![("b".to_string(), 3), ("new".to_string(), 0)]);
    assert!(decayed_skills(&names, &all, 5).is_empty());
}

const TRIAL: &str = "---\nname: x\nx-r2-status: trial\n---\n";

fn stat(success: u64, fail: u64) -> Option<SkillUseStat> {
    Some(SkillUseStat { count: success + fail, success, fail, last_used: 0 })
}

#[test]
fn trials_end() {
    assert_eq!(check_promotion(TRIAL, stat(4, 1)), Promotion::Promote);
    assert_eq!(check_promotion(TRIAL, stat(3, 1)), Promotion::Keep);
    assert_eq!(check_promotion(TRIAL, stat(3, 2)), Promotion::Keep);
    assert_eq!(check_promotion(TRIAL, stat(100, 3)), Promotion::Archive);
    assert_eq!(check_promotion(TRIAL, None), Promotion::Keep);
    assert_eq!(check_promotion("---\nname: x\nx-r2-status: active\n---\n", stat(9, 3)), Promotion::Keep);
    let e = promotion_event("x", Promotion::Promote, stat(4, 1).unwrap(), 1).unwrap();
    assert_eq!(e.content, "auto 技能「x」转正（4/5 成功）");
    assert_eq!(e.evidence, "success=4 fail=1 count=5");
    let e = promotion_event("x", Promotion::Archive, stat(1, 3).unwrap(), 1).unwrap();
    assert_eq!((e.content.as_str(), e.kind.as_str()), ("auto 技能「x」归档（失败 3/4 次）", "skill_archived"));
    assert!(promotion_event("x", Promotion::Keep, stat(1, 1).unwrap(), 1).is_none());
}

#[test]
fn lessons_flock_together() {
    let l = |ts: u64, c: &str| event_at("lesson", c, "", ts);
    let events = vec![
        l(1, "sed -i 前先备份 cp x x.bak"),
        l(2, "sed -i 前先备份，用 cp 复制一份"),
        l(3, "docker 网络要 inspect 看 bridge"),
        event_at("goal_set", "sed -i 前先备份 cp x x.bak", "", 4),
    ];
    let c = detect_lesson_clusters(&events, 2);
    assert_eq!(c.len(), 1);
    assert_eq!(c[0].len(), 2);
    assert_eq!(detect_lesson_clusters(&events, 1).len(), 2);
    assert!(detect_lesson_clusters(&events, 3).is_empty());
}

#[test]
fn drafts_and_additions() {
    assert!(write_draft_skill("auto-x", false).is_ok());
    assert_eq!(write_draft_skill("auto-x", true).unwrap_err(), "技能 auto-x 已存在（成长中，不重复起草）");
    let v = |x: &[&str]| -> Vec<String> { x.iter().map(|s| s.to_string()).collect() };
    assert_eq!(list_skill_names(&v(&["b", "a"])), v(&["a", "b"]));
    assert_eq!(added_skills(&v(&["a"]), &v(&["a", "b", "c"])), Some(v(&["b", "c"])));
    assert_eq!(added_skills(&v(&["a"]), &v(&["a"])), None);
    assert_eq!(added_skills(&v(&[]), &v(&["auto-x", "b"])), None);
    assert_eq!(skills_event(&v(&["b", "c"]), &None, 1).content, "学习沉淀为技能：b、c");
    let e = draft_event("auto-x", &v(&["l1", "l2"]), &None, 1);
    assert_eq!((e.content.as_str(), e.evidence.as_str()), ("同族教训 ×2 自动合成技能「auto-x」（试用中）", "l1"));
}

#[test]
fn histories() {
    assert_eq!(snapshot_files(true, false, true), vec!["skills", "SOUL.md", ".gitignore"]);
    assert!(SELF_IGNORED.contains("config.toml\n"));
    assert_eq!(snapshot_step(b""), SnapshotStep::Unchanged);
    assert_eq!(snapshot_step(b" M x"), SnapshotStep::Commit);
    assert_eq!(snapshot_result(true, b"", Some("abc123\n")).unwrap(), "abc123");
    assert_eq!(snapshot_result(true, b"", None).unwrap(), "");
    assert_eq!(snapshot_result(false, b"bad \xff", None).unwrap_err(), "commit 失败：bad \u{fffd}");
}

#[test]
fn skill_files() {
    let content = "---\nname: x\ndescription: 做报告\n---\n# 标题\n正文";
    assert_eq!(skill_description(content), "做报告");
    assert_eq!(skill_description("---\nname: x\n---\n\n# 标题\n正文"), "标题");
    assert_eq!(skill_description("# 只有标题"), "只有标题");
    let long = format!("---\ndescription: {}\n---\n", "长".repeat(200));
    assert_eq!(skill_frontmatter_desc(&long).chars().count(), 120);
    assert_eq!(read_skill_status(content), None);
    assert_eq!(read_skill_status(TRIAL).as_deref(), Some("trial"));
    let set = write_skill_status(TRIAL, "active");
    assert_eq!(read_skill_status(&set).as_deref(), Some("active"));
    assert_eq!(set, "---\nname: x\nx-r2-status: active\n---\n");
    let added = write_skill_status(content, "archived");
    assert_eq!(read_skill_status(&added).as_deref(), Some("archived"));
    assert!(added.ends_with("# 标题\n正文\n") || added.ends_with("# 标题\n正文"));
}

#[test]
fn runs_give_their_pairs() {
    let mut out: Vec<String> = Vec::new();
    flush_cjk(&['单'], &mut out);
    assert!(out.is_empty());
    flush_cjk(&['沙', '箱', '沙', '箱'], &mut out);
    assert_eq!(out, vec!["沙箱".to_string(), "箱沙".to_string()]);
    flush_cjk(&['箱', '沙'], &mut out);
    assert_eq!(out.len(), 2);
}
