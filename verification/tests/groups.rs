//! Groups: founding, states, speakers, budget, lead and the stream.

use r2_core::agents::MAIN;
use r2_core::client::ClientMsg;
use r2_core::events::AgentEvent;
use r2_core::groups::{
    add_tokens, append_event, create_group, effective_turn_order, event_of_json, new_group, next_speaker,
    promote_lead, read_stream, revoke_lead, set_state, speaking_to_force_next, state_allowed, GroupConfig, GroupEvent,
    DEFAULT_BUDGET_TOKENS, DEFAULT_MAX_ROUNDS,
};
use r2_core::json::Json;
use r2_core::meeting::{
    activity_of, approve_subtask, build_member_prompt, build_summary_prompt, call_next, check_summary,
    do_group_create, event_text, group_add_tokens, group_dir_path, group_note_failure, group_pause_budget, has_done,
    next_round, parse_delegate, parse_mentions, pause_or_stop, resolve_group, start_delegation, start_discussion,
    start_turn, stream_context, subtask_events, subtask_prompt, summary_event, take_answer, turn_end, turn_tokens,
    user_says, valid_group_sid, GroupRuns, GroupTurns, RunEnd, TurnEnd, TurnFailure, TurnStart,
};

fn make_group() -> GroupConfig {
    create_group("评审会", &[("main", "主人"), ("cfo", "CFO"), ("cto", "CTO")]).unwrap()
}

/// Moves a group and appends the event, as the console does.
fn moved(g: &mut GroupConfig, stream: &mut String, to: &str) -> Result<(), String> {
    let (h, e) = set_state(Some(g.clone()), to, 1)?;
    *g = h;
    *stream = append_event(std::mem::take(stream), &e);
    Ok(())
}

#[test]
fn test_create_group_roundtrip() {
    let g = make_group();
    assert_eq!(g.state, "idle");
    assert_eq!(g.settings.max_rounds, DEFAULT_MAX_ROUNDS);
    assert_eq!(g.settings.budget_tokens, DEFAULT_BUDGET_TOKENS);
    assert_eq!(g.settings.turn_order, vec!["main", "cfo", "cto"]);
    assert_eq!(g.members[0].role, "owner"); // main = 人
    assert_eq!(g.members[1].role, "member");
    assert_eq!(g.round, 0);
    assert_eq!(g.used_tokens, 0);
    assert!(g.speaking.is_none());
    assert!(g.task.is_none());
}

#[test]
fn test_create_member_count_limits() {
    // 少于 2 人
    assert!(create_group("t", &[("main", "主人")]).is_err());
    // 多于 5 人
    let six: Vec<(&str, &str)> = vec![("main", "m"), ("a1", ""), ("a2", ""), ("a3", ""), ("a4", ""), ("a5", "")];
    assert!(create_group("t", &six).is_err());
    // 恰好 5 人合法
    let five = &six[..5];
    assert!(create_group("t", five).is_ok());
}

#[test]
fn test_create_duplicate_rejected() {
    assert!(create_group("t", &[("main", "m"), ("cfo", "a"), ("cfo", "b")]).is_err());
}

#[test]
fn test_create_name_rules() {
    // 非法字符
    assert!(create_group("t", &[("main", "m"), ("a/b", "x")]).is_err());
    // main 允许入群（agents::valid_name 拒绝 main，群里放开）
    assert!(create_group("t", &[("main", "m"), ("cfo", "x")]).is_ok());
}

#[test]
fn founding_tells_what_is_wrong() {
    assert_eq!(
        create_group("t", &[("main", "")]).unwrap_err(),
        "ERROR: 群成员至少 2 人（含 main），当前 1 人"
    );
    let six = [("main", ""), ("a", ""), ("b", ""), ("c", ""), ("d", ""), ("e", "")];
    assert_eq!(create_group("t", &six).unwrap_err(), "ERROR: 群成员最多 5 人（含 main），当前 6 人");
    assert_eq!(
        create_group("t", &[("main", ""), ("a/b", "")]).unwrap_err(),
        "ERROR: 非法成员名：a/b（1-24 位字母/数字/-/_，main 保留给人）"
    );
    assert_eq!(create_group("t", &[("a", ""), ("a", "")]).unwrap_err(), "ERROR: 成员重名：a");
}

#[test]
fn fresh_ids_differ_and_have_the_shape() {
    let a = make_group().id;
    let b = make_group().id;
    assert_ne!(a, b);
    assert_eq!(a.len(), 36);
    assert!(a.chars().enumerate().all(|(i, c)| match i {
        8 | 13 | 18 | 23 => c == '-',
        _ => c.is_ascii_digit() || ('a'..='f').contains(&c),
    }));
    assert!(valid_group_sid(&format!("group-{a}")));
}

#[test]
fn test_state_machine_legal_chain() {
    let mut s = String::new();
    let mut g = make_group();
    moved(&mut g, &mut s, "discussing").unwrap();
    assert_eq!(g.state, "discussing");
    moved(&mut g, &mut s, "paused").unwrap();
    assert_eq!(g.state, "paused");
    // paused 可恢复
    moved(&mut g, &mut s, "discussing").unwrap();
    assert_eq!(g.state, "discussing");
    moved(&mut g, &mut s, "stopped").unwrap();
    assert_eq!(g.state, "stopped");
    // discussing → summarized 也合法
    let mut g2 = make_group();
    moved(&mut g2, &mut s, "discussing").unwrap();
    moved(&mut g2, &mut s, "summarized").unwrap();
    assert_eq!(g2.state, "summarized");
    // paused → stopped 合法
    let mut g3 = make_group();
    moved(&mut g3, &mut s, "discussing").unwrap();
    moved(&mut g3, &mut s, "paused").unwrap();
    moved(&mut g3, &mut s, "stopped").unwrap();
    assert_eq!(g3.state, "stopped");
}

#[test]
fn test_state_machine_illegal_rejected() {
    let mut s = String::new();
    let mut g = make_group();
    // idle 只能 → discussing
    assert!(moved(&mut g, &mut s, "paused").is_err());
    assert!(moved(&mut g, &mut s, "stopped").is_err());
    assert!(moved(&mut g, &mut s, "summarized").is_err());
    assert!(moved(&mut g, &mut s, "idle").is_err()); // 同态拒绝
    moved(&mut g, &mut s, "discussing").unwrap();
    assert!(moved(&mut g, &mut s, "idle").is_err());
    moved(&mut g, &mut s, "stopped").unwrap();
    // 终态不可再迁
    assert!(moved(&mut g, &mut s, "discussing").is_err());
    // summarized 终态
    let mut g2 = make_group();
    moved(&mut g2, &mut s, "discussing").unwrap();
    moved(&mut g2, &mut s, "summarized").unwrap();
    assert!(moved(&mut g2, &mut s, "idle").is_err());
}

#[test]
fn states_tell_what_is_wrong() {
    assert_eq!(set_state(None, "discussing", 1).unwrap_err(), "ERROR: 群档案不存在或损坏");
    assert_eq!(
        set_state(Some(make_group()), "paused", 1).unwrap_err(),
        "ERROR: 非法状态迁移：idle → paused"
    );
    // 终态
    for to in ["idle", "discussing", "paused", "stopped", "summarized"] {
        assert!(!state_allowed("stopped", to));
        assert!(!state_allowed(to, "idle"));
    }
}

#[test]
fn test_state_change_logged_to_stream() {
    let mut s = String::new();
    let mut g = make_group();
    moved(&mut g, &mut s, "discussing").unwrap();
    let events = read_stream(&s);
    assert_eq!(events.len(), 1);
    assert_eq!(
        events[0],
        GroupEvent::StateChange {
            from_state: "idle".into(),
            to_state: "discussing".into(),
            ts: match events[0] {
                GroupEvent::StateChange { ts, .. } => ts,
                _ => unreachable!(),
            },
        }
    );
}

#[test]
fn test_next_speaker_cycles() {
    let mut g = make_group();
    // 无人发言 → 队首
    assert_eq!(next_speaker(&g, None).as_deref(), Some("main"));
    g.speaking = Some("main".into());
    assert_eq!(next_speaker(&g, None).as_deref(), Some("cfo"));
    g.speaking = Some("cfo".into());
    assert_eq!(next_speaker(&g, None).as_deref(), Some("cto"));
    // 队尾循环回队首
    g.speaking = Some("cto".into());
    assert_eq!(next_speaker(&g, None).as_deref(), Some("main"));
    // speaking 不在 turn_order → 从队首起
    g.speaking = Some("ghost".into());
    assert_eq!(next_speaker(&g, None).as_deref(), Some("main"));
}

#[test]
fn test_next_speaker_skip() {
    let mut g = make_group();
    g.speaking = Some("main".into());
    // 跳过下一个 → 落到再下一个
    assert_eq!(next_speaker(&g, Some("cfo")).as_deref(), Some("cto"));
    // 全员跳过（skip + speaking 覆盖两人之外只剩一个可选）
    g.speaking = Some("cfo".into());
    assert_eq!(next_speaker(&g, Some("cto")).as_deref(), Some("main"));
    // 单人无效循环：speaking 与 skip 覆盖全部 → None
    g.settings.turn_order = vec!["cfo".into()];
    g.speaking = Some("cfo".into());
    assert_eq!(next_speaker(&g, None), None);
}

#[test]
fn test_next_speaker_lead_last() {
    let mut g = promote_lead(Some(make_group()), "cfo").unwrap();
    // lead=cfo 被挪到队尾：顺序 main → cto → cfo
    g.speaking = None;
    assert_eq!(next_speaker(&g, None).as_deref(), Some("main"));
    g.speaking = Some("main".into());
    assert_eq!(next_speaker(&g, None).as_deref(), Some("cto"));
    g.speaking = Some("cto".into());
    assert_eq!(next_speaker(&g, None).as_deref(), Some("cfo"));
    g.speaking = Some("cfo".into());
    assert_eq!(next_speaker(&g, None).as_deref(), Some("main"));
    assert_eq!(effective_turn_order(&g), vec!["main", "cto", "cfo"]);
}

#[test]
fn test_budget_gate() {
    let mut g = make_group();
    assert!(add_tokens(&mut g, 100_000));
    assert_eq!(g.used_tokens, 100_000);
    // 顶到预算边缘仍放行（<=）
    assert!(add_tokens(&mut g, 200_000));
    assert_eq!(g.used_tokens, 300_000);
    // 超 1 个 token 触发闸
    assert!(!add_tokens(&mut g, 1));
    assert_eq!(g.used_tokens, 300_001);
    // 用尽后不会回来
    assert!(!add_tokens(&mut g, u64::MAX));
    assert_eq!(g.used_tokens, u64::MAX);
}

#[test]
fn test_lead_promote_and_revoke() {
    // 提升
    let g = promote_lead(Some(make_group()), "cfo").unwrap();
    assert_eq!(g.members.iter().find(|m| m.name == "cfo").unwrap().role, "lead");
    // 重复提升报错（已存在 lead）
    assert!(promote_lead(Some(g.clone()), "cto").is_err());
    assert!(promote_lead(Some(g.clone()), "cfo").is_err());
    // owner 不可委任
    assert!(promote_lead(Some(make_group()), "main").is_err());
    // 不存在的成员
    assert!(promote_lead(Some(make_group()), "ghost").is_err());
    // 撤销
    let g = revoke_lead(Some(g)).unwrap();
    assert_eq!(g.members.iter().find(|m| m.name == "cfo").unwrap().role, "member");
    // 无 lead 撤销报错
    assert!(revoke_lead(Some(g)).is_err());
}

#[test]
fn leads_tell_what_is_wrong() {
    let g = promote_lead(Some(make_group()), "cfo").unwrap();
    assert_eq!(promote_lead(Some(g), "cto").unwrap_err(), "ERROR: 已存在 lead，先 revoke_lead 再委任");
    assert_eq!(promote_lead(Some(make_group()), "main").unwrap_err(), "ERROR: owner（人）不能被委任为 lead");
    assert_eq!(promote_lead(Some(make_group()), "x").unwrap_err(), "ERROR: 成员不存在：x");
    assert_eq!(promote_lead(None, "x").unwrap_err(), "ERROR: 群档案不存在或损坏");
    assert_eq!(revoke_lead(Some(make_group())).unwrap_err(), "ERROR: 当前没有 lead");
    // 提升再撤销 = 原样
    let g = make_group();
    let h = revoke_lead(Some(promote_lead(Some(g.clone()), "cto").unwrap())).unwrap();
    assert_eq!(g, h);
}

#[test]
fn test_lead_revoke_keeps_discussing_state() {
    let mut s = String::new();
    let mut g = make_group();
    moved(&mut g, &mut s, "discussing").unwrap();
    let g = promote_lead(Some(g), "cfo").unwrap();
    let g = revoke_lead(Some(g)).unwrap();
    assert_eq!(g.state, "discussing"); // 撤 lead 不动状态
}

#[test]
fn test_stream_append_and_read() {
    let mut s = String::new();
    // 不存在时读 = 空
    assert!(read_stream(&s).is_empty());
    s = append_event(s, &GroupEvent::message("user", "大家好"));
    s = append_event(s, &GroupEvent::mention("user", "@cfo 报数", vec!["cfo".into()]));
    s = append_event(
        s,
        &GroupEvent::Subtask {
            from: "cfo".into(),
            to: "analyst".into(),
            prompt: "拉数据".into(),
            ts: 1,
            state: "pending".into(),
        },
    );
    s = append_event(s, &GroupEvent::summary("已对齐"));
    s = append_event(s, &GroupEvent::error("模型超时"));
    let events = read_stream(&s);
    assert_eq!(events.len(), 5);
    assert_eq!(
        events[0],
        GroupEvent::Message {
            from: "user".into(),
            text: "大家好".into(),
            ts: match events[0] {
                GroupEvent::Message { ts, .. } => ts,
                _ => unreachable!(),
            },
        }
    );
    match &events[1] {
        GroupEvent::Mention { mentions, .. } => assert_eq!(mentions, &vec!["cfo".to_string()]),
        other => panic!("期望 mention，实际 {other:?}"),
    }
    match &events[2] {
        GroupEvent::Subtask { state, .. } => assert_eq!(state, "pending"),
        other => panic!("期望 subtask，实际 {other:?}"),
    }
}

#[test]
fn test_stream_bad_line_recovery() {
    let mut s = append_event(String::new(), &GroupEvent::message("user", "第一条"));
    // 手动塞入坏行（模拟崩溃残行/手改历史）
    s.push_str("{not-json\n");
    s.push('\n');
    s = append_event(s, &GroupEvent::message("cfo", "第三条"));
    let events = read_stream(&s);
    assert_eq!(events.len(), 2); // 坏行与空行被丢弃
    match &events[1] {
        GroupEvent::Message { from, .. } => assert_eq!(from, "cfo"),
        other => panic!("期望 message，实际 {other:?}"),
    }
}

#[test]
fn every_event_is_read_back() {
    let all = vec![
        GroupEvent::Message { from: "a".into(), text: "多行\n\"文本\"".into(), ts: 1 },
        GroupEvent::Mention { from: "a".into(), text: "@b".into(), ts: 2, mentions: vec!["b".into(), "c".into()] },
        GroupEvent::Subtask { from: "a".into(), to: "b".into(), prompt: "p".into(), ts: 3, state: "done".into() },
        GroupEvent::Summary { text: "s".into(), ts: 4 },
        GroupEvent::StateChange { from_state: "idle".into(), to_state: "discussing".into(), ts: 5 },
        GroupEvent::Error { text: "e".into(), ts: u64::MAX },
        GroupEvent::MemberActivity { from: "a".into(), kind: "thinking".into(), text: "t".into(), ts: 7 },
    ];
    let mut s = String::new();
    for e in &all {
        s = append_event(s, e);
    }
    assert_eq!(read_stream(&s), all);
    assert!(event_of_json(&Json::read(r#"{"type":"message","from":"a"}"#).unwrap()).is_none());
}

#[test]
fn events_may_be_lists() {
    let read = |s: &str| event_of_json(&Json::read(s).unwrap());
    assert_eq!(
        read(r#"["message","a","x",1]"#),
        Some(GroupEvent::Message { from: "a".into(), text: "x".into(), ts: 1 })
    );
    assert_eq!(
        read(r#"["mention","a","@b",2,["b"]]"#),
        Some(GroupEvent::Mention { from: "a".into(), text: "@b".into(), ts: 2, mentions: vec!["b".into()] })
    );
    assert_eq!(read(r#"["summary","s",4]"#), Some(GroupEvent::Summary { text: "s".into(), ts: 4 }));
    assert_eq!(
        read(r#"["subtask","a","b","p",3,"done"]"#),
        Some(GroupEvent::Subtask { from: "a".into(), to: "b".into(), prompt: "p".into(), ts: 3, state: "done".into() })
    );
    for bad in [r#"[]"#, r#"["summary","s"]"#, r#"["summary","s",4,5]"#, r#"["ghost","s",4]"#, r#"[1,"s",4]"#] {
        assert_eq!(read(bad), None);
    }
}

// ---------- the discussion ----------

#[test]
fn test_valid_group_sid() {
    assert!(valid_group_sid("group-550e8400-e29b-41d4-a716-446655440000"));
    assert!(!valid_group_sid("group-"));
    assert!(!valid_group_sid("abc"));
    assert!(!valid_group_sid("group-../etc"));
    assert!(!valid_group_sid("group-a/b"));
}

#[test]
fn groups_are_found_by_name() {
    assert_eq!(group_dir_path("/s", "group-1"), "/s/group-1");
    assert!(resolve_group("group-1", true).is_ok());
    assert_eq!(resolve_group("group-1", false).unwrap_err(), "ERROR: 群不存在：group-1");
    assert_eq!(resolve_group("x", true).unwrap_err(), "ERROR: 非法群 id");
}

#[test]
fn test_group_create_dir_structure() {
    let known = vec!["cfo".to_string(), "cto".to_string()];
    let (sid, g, first) = do_group_create(
        "评审会",
        &vec![("cfo".to_string(), "CFO".to_string()), ("cto".to_string(), "CTO".to_string())],
        &known,
    )
    .unwrap();
    assert!(sid.starts_with("group-"));
    // owner 自动加入且 role=owner
    assert_eq!(g.members[0].name, MAIN);
    assert_eq!(g.members[0].role, "owner");
    // stream 首条 = StateChange idle
    let events = read_stream(&append_event(String::new(), &first));
    assert_eq!(events.len(), 1);
    assert!(matches!(
        events[0],
        GroupEvent::StateChange { ref from_state, ref to_state, .. } if from_state == "idle" && to_state == "idle"
    ));
    // 不存在的 agent / 指定 main / 空标题 → 报错
    assert!(do_group_create("t", &vec![("ghost".into(), "".into())], &known).is_err());
    assert!(do_group_create("t", &vec![(MAIN.into(), "".into())], &known).is_err());
    assert!(do_group_create("  ", &vec![("cfo".into(), "".into())], &known).is_err());
}

#[test]
fn founding_from_the_console_tells_what_is_wrong() {
    let known = vec!["cfo".to_string()];
    let err = |title: &str, m: Vec<(String, String)>| do_group_create(title, &m, &known).unwrap_err();
    assert_eq!(err(" ", vec![]), "ERROR: 群标题不能为空");
    assert_eq!(err("t", vec![]), "ERROR: 至少 1 个 agent 分身");
    assert_eq!(err("t", vec![("main".into(), "".into())]), "ERROR: main（主Agent）由系统自动加入，无需指定");
    assert_eq!(err("t", vec![("x".into(), "".into())]), "ERROR: agent 不存在：x");
    assert_eq!(err("t", vec![("cfo".into(), "".into()), ("cfo".into(), "".into())]), "ERROR: 成员重名：cfo");
    let (sid, g, _) = do_group_create("t", &vec![("cfo".into(), "C".into())], &known).unwrap();
    assert_eq!(sid, format!("group-{}", g.id));
    assert!(valid_group_sid(&sid));
    assert_eq!(g.members[0].display_name, "小JOE（主Agent）");
}

#[test]
fn test_parse_mentions_done_delegate() {
    let g = make_group();
    // @点名认群成员（含 main 主Agent——他也是同事）；user 不在成员表天然不可被点
    assert_eq!(parse_mentions("请 @cfo 报个数", &g), vec!["cfo".to_string()]);
    assert_eq!(parse_mentions("@main 你怎么看", &g), vec!["main".to_string()]);
    assert_eq!(parse_mentions("@cfo 和 @cto 都对", &g), vec!["cfo".to_string(), "cto".to_string()]);
    assert_eq!(parse_mentions("没有点名", &g), Vec::<String>::new());
    assert_eq!(parse_mentions("@ghost 不存在", &g), Vec::<String>::new());
    // 收敛信号
    assert!(has_done("综上 [DONE]"));
    assert!(!has_done("[DONE 还没收敛"));
    // 派卡指令
    assert_eq!(
        parse_delegate("规划如下 [DELEGATE @cto 拉取 Q3 数据] 以上"),
        Some(("cto".to_string(), "拉取 Q3 数据".to_string()))
    );
    assert_eq!(parse_delegate("[DELEGATE cfo 缺@号]"), None);
    assert_eq!(parse_delegate("[DELEGATE @cto]"), None); // 无任务描述
    assert_eq!(parse_delegate("没有指令"), None);
}

#[test]
fn a_longer_name_is_not_its_prefix() {
    let g = create_group("t", &[("main", ""), ("cfo", ""), ("cfo2", "")]).unwrap();
    assert_eq!(parse_mentions("@cfo2 看下", &g), vec!["cfo2"]);
    assert_eq!(parse_mentions("@cfo 看下", &g), vec!["cfo"]);
    assert_eq!(parse_mentions("@cfo @cfo2", &g), vec!["cfo2", "cfo"]);
}

#[test]
fn mentions_come_longest_first() {
    let g = create_group("t", &[("main", ""), ("ab", ""), ("abcdef", "")]).unwrap();
    assert_eq!(parse_mentions("@main @abcdef", &g), vec!["abcdef", "main"]);
    assert_eq!(parse_mentions("@ab @main @abcdef", &g), vec!["abcdef", "main", "ab"]);
    assert_eq!(parse_mentions("@abcde", &g), vec!["ab"]);
    assert_eq!(parse_mentions("@ab", &g), vec!["ab"]);
    assert_eq!(parse_delegate("[DELEGATE @a\t b c ]"), Some(("a".into(), "b c".into())));
    assert_eq!(parse_delegate("[DELEGATE @a b"), None);
}

#[test]
fn test_speaking_to_force_next_jump() {
    let mut g = make_group();
    // 顺序 main → cfo → cto：点名 cto → speaking 置 cfo，下一位即 cto
    let sp = speaking_to_force_next(&g, "cto").unwrap();
    g.speaking = Some(sp);
    assert_eq!(next_speaker(&g, Some(MAIN)).as_deref(), Some("cto"));
    // 点名 cfo → speaking 置 main
    let sp = speaking_to_force_next(&g, "cfo").unwrap();
    g.speaking = Some(sp);
    assert_eq!(next_speaker(&g, Some(MAIN)).as_deref(), Some("cfo"));
    // 目标不存在 → None
    assert_eq!(speaking_to_force_next(&g, "ghost"), None);
}

#[test]
fn test_budget_pause_path() {
    let mut s = String::new();
    let mut g = make_group();
    moved(&mut g, &mut s, "discussing").unwrap();
    // 记账到顶仍放行
    let (saved, ok) = group_add_tokens(Some(g), 300_000);
    assert!(ok);
    // 超 1 个 token → false（调度器据此走 group_pause_budget）
    let (saved, ok) = group_add_tokens(saved, 1);
    assert!(!ok);
    let step = group_pause_budget(saved, 9);
    let g2 = step.saved.unwrap();
    assert_eq!(g2.state, "paused");
    for e in &step.events {
        s = append_event(s, e);
    }
    let events = read_stream(&s);
    assert!(matches!(events.last(), Some(GroupEvent::Error { text, .. }) if text.contains("预算耗尽")));
    // paused 后 budget 已超：used_tokens 落盘保留
    assert!(g2.used_tokens > 300_000);
    assert_eq!(group_add_tokens(None, 5), (None, true));
}

#[test]
fn test_group_state_smoke() {
    let mut s = String::new();
    let mut g = make_group();
    // idle → discussing → summarized 状态落盘正确（无需真模型）
    moved(&mut g, &mut s, "discussing").unwrap();
    assert_eq!(g.state, "discussing");
    moved(&mut g, &mut s, "summarized").unwrap();
    assert_eq!(g.state, "summarized");
    // summarized 可重开继续聊（v0.9.1）；stopped 才是真终态
    assert!(moved(&mut g, &mut s, "discussing").is_ok());
    moved(&mut g, &mut s, "stopped").unwrap();
    assert!(moved(&mut g, &mut s, "discussing").is_err());
    // StateChange 事件入流
    let events = read_stream(&s);
    assert_eq!(events.len(), 4);
    assert!(matches!(events[1], GroupEvent::StateChange { ref from_state, ref to_state, .. }
        if from_state == "discussing" && to_state == "summarized"));
}

#[test]
fn test_interject_keeps_speaking() {
    let mut s = String::new();
    let mut g = make_group();
    moved(&mut g, &mut s, "discussing").unwrap();
    g.speaking = Some("cfo".into());
    // 人插话：只入流，不动 speaking（模拟 group_prompt discussing 分支）
    let said = user_says(&g, "插一句", 3).unwrap();
    s = append_event(s, &said.event);
    assert_eq!(read_stream(&s).len(), 2);
    assert!(said.call.is_none());
    assert!(!said.restart);
    assert_eq!(g.speaking.as_deref(), Some("cfo"));
    assert_eq!(g.state, "discussing");
}

#[test]
fn test_group_note_failure_pause() {
    let mut s = String::new();
    let mut g = make_group();
    moved(&mut g, &mut s, "discussing").unwrap();
    let mut events: Vec<GroupEvent> = Vec::new();
    // 前两次失败：只记 Error，不暂停
    for streak in 1..=2 {
        let (step, stop) = group_note_failure(Some(g.clone()), streak, &format!("失败{streak}"), 1);
        assert!(!stop);
        assert!(step.saved.is_none());
        events.extend(step.events);
    }
    assert_eq!(g.state, "discussing");
    // 第三次：自动 paused
    let (step, stop) = group_note_failure(Some(g), 3, "失败3", 1);
    assert!(stop);
    assert_eq!(step.saved.unwrap().state, "paused");
    events.extend(step.events);
    assert!(events.iter().filter(|e| matches!(e, GroupEvent::Error { .. })).count() >= 3);
}

#[test]
fn test_stream_context_caps() {
    let mut s = String::new();
    // 60 条事件 → 只取最近 40 条
    for i in 0..60 {
        s = append_event(s, &GroupEvent::message("cfo", &format!("第{i}条")));
    }
    let ctx = stream_context(&read_stream(&s), 40, 12_000);
    assert!(!ctx.contains("第19条"));
    assert!(ctx.contains("第20条"));
    assert!(ctx.contains("第59条"));
    // 字符上限：超长事件流从头部截断
    let long = "字".repeat(500);
    for _ in 0..30 {
        s = append_event(s, &GroupEvent::message("cto", &long));
    }
    let ctx = stream_context(&read_stream(&s), 40, 12_000);
    assert!(ctx.starts_with("……（前文省略）"));
    assert!(ctx.chars().count() <= 12_000 + 20); // 截断标记少量余量
}

#[test]
fn test_build_member_prompt_contents() {
    let g = make_group();
    let s = append_event(String::new(), &GroupEvent::message("user", "聊聊 Q3 预算"));
    let prompt = build_member_prompt(&g, &read_stream(&s), "cfo");
    assert!(prompt.contains("评审会"));
    assert!(prompt.contains("成员 cfo"));
    assert!(prompt.contains("- cfo（CFO，member）"));
    assert!(prompt.contains("聊聊 Q3 预算"));
    assert!(prompt.contains("[DONE]"));
    assert!(prompt.contains("[DELEGATE"));
}

#[test]
fn a_member_is_told_exactly() {
    let mut g = promote_lead(Some(new_group("i".into(), "会", &[("main", ""), ("cfo", "CFO")], 1).unwrap()), "cfo").unwrap();
    g.used_tokens = 299_999;
    let events = vec![GroupEvent::Message { from: "user".into(), text: "好".into(), ts: 1 }];
    assert_eq!(
        build_member_prompt(&g, &events, "cfo"),
        "你正在参加群聊「会」，你的身份是成员 cfo（lead）。\n\n【群成员】\n- main（main，owner）\n- cfo（CFO，lead）\n\n【当前 lead】cfo\n【主题】自由讨论\n【进度】第 1/2 轮，剩余 token 预算约 1\n\n【最近讨论记录】\nuser: 好\n\n【规则】\n1. 你是群聊中的 cfo，接续上下文讨论，不要重复别人说过的话。\n2. 可以 @成员名 点名追问（被点名者将优先发言）。\n3. 认为讨论已收敛时，在回复末尾单独输出 [DONE]。\n4. 如果你是 lead：先做规划，可用 [DELEGATE @成员名 任务描述] 派卡（需人批准后执行）。\n5. 回复控制在 300 字以内，直接说内容，不要客套。"
    );
    assert_eq!(
        build_summary_prompt(&g, &events),
        "以下是群聊「会」（主题：自由讨论）的讨论记录：\n\nuser: 好\n\n请输出不超过 300 字的小结：达成的结论、未决分歧、后续行动。直接给小结正文。"
    );
    assert_eq!(
        subtask_prompt(&g, &events, "查账"),
        "你在群聊「会」中被委任子任务：\n查账\n\n最近群上下文：\nuser: 好\n\n请执行该任务并给出结果汇报（300 字以内）。"
    );
}

#[test]
fn events_as_text() {
    let text = |e: GroupEvent| event_text(&e);
    assert_eq!(text(GroupEvent::MemberActivity { from: "a".into(), kind: "k".into(), text: "t".into(), ts: 1 }), None);
    assert_eq!(
        text(GroupEvent::Mention { from: "a".into(), text: "hi".into(), ts: 1, mentions: vec!["b".into(), "c".into()] }),
        Some("a: hi（@b c）".into())
    );
    assert_eq!(
        text(GroupEvent::Subtask { from: "a".into(), to: "b".into(), prompt: "p".into(), ts: 1, state: "pending".into() }),
        Some("[a → b] 子任务（pending）：p".into())
    );
    assert_eq!(text(GroupEvent::Summary { text: "s".into(), ts: 1 }), Some("[小结] s".into()));
    assert_eq!(
        text(GroupEvent::StateChange { from_state: "x".into(), to_state: "y".into(), ts: 1 }),
        Some("[状态] x → y".into())
    );
    assert_eq!(text(GroupEvent::Error { text: "e".into(), ts: 1 }), Some("[错误] e".into()));
}

#[test]
fn steps_of_work_are_recorded() {
    assert_eq!(
        activity_of("cfo", &AgentEvent::Thinking("hm".into()), 5),
        Some(GroupEvent::MemberActivity { from: "cfo".into(), kind: "thinking".into(), text: "hm".into(), ts: 5 })
    );
    assert_eq!(
        activity_of("cfo", &AgentEvent::ToolCall { name: "read".into(), arguments: "{}".into() }, 5),
        Some(GroupEvent::MemberActivity {
            from: "cfo".into(),
            kind: "tool_call".into(),
            text: r#"{"arguments":"{}","name":"read"}"#.into(),
            ts: 5
        })
    );
    assert_eq!(
        activity_of("cfo", &AgentEvent::ToolResult { name: "read".into(), output: "o".into() }, 5),
        Some(GroupEvent::MemberActivity {
            from: "cfo".into(),
            kind: "tool_result".into(),
            text: r#"{"name":"read","output":"o"}"#.into(),
            ts: 5
        })
    );
    assert_eq!(activity_of("cfo", &AgentEvent::AgentStart, 5), None);
}

fn discussing() -> GroupConfig {
    let mut g = make_group();
    g.state = "discussing".into();
    g
}

#[test]
fn turns_start_with_the_next_speaker() {
    assert!(matches!(start_turn(None), TurnStart::End(None)));
    assert!(matches!(start_turn(Some(make_group())), TurnStart::End(None)));
    match start_turn(Some(discussing())) {
        TurnStart::Speak { group, name } => {
            assert_eq!(name, "main");
            assert_eq!(group.speaking.as_deref(), Some("main"));
        }
        other => panic!("{other:?}"),
    }
    // 唯一候选正占着 → 清掉重取
    let mut g = discussing();
    g.settings.turn_order = vec!["cfo".into()];
    g.speaking = Some("cfo".into());
    match start_turn(Some(g)) {
        TurnStart::Speak { name, .. } => assert_eq!(name, "cfo"),
        other => panic!("{other:?}"),
    }
    // 没有人可发言
    let mut g = discussing();
    g.settings.turn_order = vec![];
    g.speaking = Some("cfo".into());
    match start_turn(Some(g)) {
        TurnStart::End(Some(g)) => assert!(g.speaking.is_none()),
        other => panic!("{other:?}"),
    }
}

#[test]
fn answers_are_taken() {
    let g = discussing();
    let (events, call) = take_answer(&g, "cfo", "@cfo @cto [DELEGATE @cto 查账]", 4);
    assert_eq!(events.len(), 2);
    assert!(matches!(&events[0], GroupEvent::Mention { mentions, .. } if mentions == &vec!["cfo", "cto"]));
    assert!(matches!(&events[1], GroupEvent::Subtask { to, prompt, state, .. }
        if to == "cto" && prompt == "查账" && state == "pending"));
    // 点自己不跳序
    assert_eq!(call, None);
    let (_, call) = take_answer(&g, "main", "@cto 看看", 4);
    assert_eq!(call.as_deref(), Some("cto"));
    // 派给非成员 → 不落子任务
    let (events, _) = take_answer(&g, "main", "[DELEGATE @ghost x]", 4);
    assert_eq!(events.len(), 1);
    assert!(matches!(&events[0], GroupEvent::Message { .. }));
    assert!(call_next(None, "cto").is_none());
    assert!(call_next(Some(discussing()), "ghost").is_none());
    assert_eq!(call_next(Some(discussing()), "cto").unwrap().speaking.as_deref(), Some("cfo"));
}

#[test]
fn tokens_of_a_turn() {
    assert_eq!(turn_tokens(3, 4, "prompt", "text"), 7);
    assert_eq!(turn_tokens(0, 0, "字字字字字字", "答案答"), 2);
}

#[test]
fn rounds_and_turns() {
    let mut g = discussing();
    g.settings.max_rounds = 2;
    let (g, over) = next_round(g);
    assert_eq!((g.round, over), (1, false));
    let (g, over) = next_round(g);
    assert_eq!((g.round, over), (2, true));
    assert_eq!(turn_end(false, true, "[DONE]"), TurnEnd::PauseBudget);
    assert_eq!(turn_end(true, true, ""), TurnEnd::Summarize);
    assert_eq!(turn_end(true, false, "[DONE]"), TurnEnd::Summarize);
    assert_eq!(turn_end(true, false, ""), TurnEnd::NextTurn);
}

#[test]
fn a_whole_discussion() {
    let mut g = discussing();
    let mut turns = GroupTurns::new();
    let mut order = Vec::new();
    let mut end = TurnEnd::NextTurn;
    while end == TurnEnd::NextTurn {
        let (group, name) = match start_turn(Some(g)) {
            TurnStart::Speak { group, name } => (group, name),
            other => panic!("{other:?}"),
        };
        order.push(name.clone());
        let step = turns.take_turn(&group, Some(group.clone()), &name, "好", 10, 1);
        assert_eq!(step.events.len(), 1);
        g = step.saved.unwrap();
        end = step.end;
    }
    // 每人一轮后 round=1；1+1 > 2 不成立，再一轮后收敛
    assert_eq!(order, vec!["main", "cfo", "cto", "main", "cfo", "cto"]);
    assert_eq!(g.round, 2);
    assert_eq!(g.used_tokens, 60);
    assert_eq!(end, TurnEnd::Summarize);
}

#[test]
fn a_turn_over_budget_pauses() {
    let mut g = discussing();
    g.used_tokens = 299_999;
    let mut turns = GroupTurns::new();
    let step = turns.take_turn(&g, Some(g.clone()), "cfo", "@cto 好", 2, 8);
    assert_eq!(step.end, TurnEnd::PauseBudget);
    let h = step.saved.unwrap();
    assert_eq!(h.state, "paused");
    assert_eq!(h.used_tokens, 300_001);
    assert_eq!(h.speaking.as_deref(), Some("cfo"));
    assert_eq!(step.events.len(), 3);
    // 人已暂停/停止时只记错误
    let mut g = make_group();
    g.used_tokens = u64::MAX;
    let step = turns.take_turn(&g, Some(g.clone()), "cfo", "好", 2, 8);
    assert_eq!(step.saved.unwrap().state, "idle");
    assert_eq!(step.events.len(), 2);
    // 档案读不到：不记账，继续
    let step = turns.take_turn(&g, None, "cfo", "好 [DONE]", 2, 8);
    assert!(step.saved.is_none());
    assert_eq!(step.end, TurnEnd::Summarize);
}

#[test]
fn failures_in_a_row_pause() {
    let mut turns = GroupTurns::new();
    let mut text = Vec::new();
    for f in [TurnFailure::Session("a".into()), TurnFailure::Prompt("b".into())] {
        let (step, stop) = turns.failed(Some(discussing()), "cfo", &f, 1);
        assert!(!stop);
        if let GroupEvent::Error { text: t, .. } = &step.events[0] {
            text.push(t.clone());
        }
    }
    assert_eq!(text, vec!["成员 cfo 会话创建失败：a", "成员 cfo 发言失败：b"]);
    let (step, stop) = turns.failed(Some(discussing()), "cfo", &TurnFailure::Timeout, 1);
    assert!(stop);
    assert_eq!(step.saved.unwrap().state, "paused");
    assert_eq!(step.events.len(), 3);
    // 一次成功清零
    let mut turns = GroupTurns::new();
    let _ = turns.failed(None, "cfo", &TurnFailure::Timeout, 1);
    let _ = turns.failed(None, "cfo", &TurnFailure::Timeout, 1);
    turns.answered();
    assert!(!turns.failed(None, "cfo", &TurnFailure::Timeout, 1).1);
}

#[test]
fn the_user_speaks() {
    let mut g = make_group();
    let said = user_says(&g, "@cfo 开始", 2).unwrap();
    assert!(said.restart);
    assert!(said.call.is_none());
    assert!(matches!(said.event, GroupEvent::Mention { .. }));
    for state in ["paused", "summarized"] {
        g.state = state.into();
        assert!(user_says(&g, "x", 2).unwrap().restart);
        assert!(state_allowed(state, "discussing"));
    }
    g.state = "discussing".into();
    let said = user_says(&g, "@cto @cfo", 2).unwrap();
    assert_eq!(said.call.as_deref(), Some("cfo"));
    assert!(!said.restart);
    g.state = "stopped".into();
    assert_eq!(user_says(&g, "x", 2).unwrap_err(), "群已终止（stopped），不能发言");
}

#[test]
fn tasks_of_a_group() {
    let (g, e) = start_discussion(Some(make_group()), "预算", 5).unwrap();
    let t = g.task.as_ref().unwrap();
    assert_eq!((t.topic.as_str(), t.kind.as_str(), t.depth_left, t.started_ts), ("预算", "discussion", 2, 5));
    assert!(matches!(e, GroupEvent::Message { ref from, ref text, .. } if from == "user" && text == "预算"));
    assert_eq!(start_discussion(None, "x", 5).unwrap_err(), "群档案损坏");
    assert_eq!(
        start_discussion(Some(discussing()), "x", 5).unwrap_err(),
        "群当前状态 discussing，不能发起讨论"
    );
    let (g, e) = start_delegation(Some(make_group()), "年报", "cfo", 5).unwrap();
    assert_eq!(g.task.as_ref().unwrap().lead.as_deref(), Some("cfo"));
    assert_eq!(g.task.as_ref().unwrap().kind, "delegation");
    assert_eq!(g.members[1].role, "lead");
    assert!(matches!(e, GroupEvent::Message { ref text, .. } if text == "委任 @cfo：年报"));
    assert_eq!(start_delegation(None, "x", "cfo", 5).unwrap_err(), "群档案损坏");
    assert_eq!(start_delegation(Some(discussing()), "x", "cfo", 5).unwrap_err(), "群当前状态 discussing，不能委任");
    assert_eq!(
        start_delegation(Some(make_group()), "x", "main", 5).unwrap_err(),
        "ERROR: owner（人）不能被委任为 lead"
    );
}

#[test]
fn pausing_and_stopping() {
    let mut g = discussing();
    g.speaking = Some("cfo".into());
    let (h, e) = pause_or_stop(Some(g), "paused", 5).unwrap();
    assert_eq!(h.state, "paused");
    assert!(h.speaking.is_none());
    assert!(matches!(e, GroupEvent::StateChange { .. }));
    assert!(pause_or_stop(Some(make_group()), "stopped", 5).is_err());
    assert!(check_summary(&discussing()).is_ok());
    assert_eq!(check_summary(&h).unwrap_err(), "仅讨论中可小结（当前 paused）");
}

#[test]
fn subtasks_wait_for_approval() {
    let task = |to: &str, prompt: &str, state: &str| GroupEvent::Subtask {
        from: "lead".into(),
        to: to.into(),
        prompt: prompt.into(),
        ts: 1,
        state: state.into(),
    };
    let events = vec![task("cto", "一", "pending"), task("cto", "二", "pending"), task("cfo", "三", "done")];
    let (e, prompt) = approve_subtask(&events, "cto", 9).unwrap();
    assert_eq!(prompt, "二");
    assert_eq!(
        e,
        GroupEvent::Subtask {
            from: "lead".into(),
            to: "cto".into(),
            prompt: "二".into(),
            ts: 9,
            state: "approved".into()
        }
    );
    assert_eq!(approve_subtask(&events, "cfo", 9).unwrap_err(), "成员 cfo 没有待批准子任务");
    let done = subtask_events("cto", "二", &RunEnd::Answer("好了".into()), 9);
    assert_eq!(done.len(), 2);
    assert!(matches!(&done[1], GroupEvent::Subtask { from, to, state, .. }
        if from == "cto" && to == "cto" && state == "done"));
    let text = |v: Vec<GroupEvent>| match &v[0] {
        GroupEvent::Error { text, .. } => text.clone(),
        other => panic!("{other:?}"),
    };
    assert_eq!(text(subtask_events("c", "p", &RunEnd::NoSession("e".into()), 9)), "子任务会话创建失败（c）：e");
    assert_eq!(text(subtask_events("c", "p", &RunEnd::Failed("e".into()), 9)), "子任务执行失败（c）：e");
    assert_eq!(text(subtask_events("c", "p", &RunEnd::Timeout, 9)), "子任务执行超时（c）");
    assert_eq!(text(vec![summary_event(&RunEnd::Timeout, 9)]), "小结生成超时");
    assert_eq!(text(vec![summary_event(&RunEnd::Failed("e".into()), 9)]), "小结生成失败：e");
    assert_eq!(text(vec![summary_event(&RunEnd::NoSession("e".into()), 9)]), "小结会话创建失败：e");
    assert_eq!(
        summary_event(&RunEnd::Answer("s".into()), 9),
        GroupEvent::Summary { text: "s".into(), ts: 9 }
    );
}

#[test]
fn a_group_runs_once() {
    let mut runs = GroupRuns::new();
    assert_eq!(runs.started(), 0);
    assert_eq!(runs.start("group-1", true), Some(1));
    assert_eq!(runs.start("group-1", true), None);
    assert_eq!(runs.start("group-2", true), Some(2));
    // 上一代任务已结束 → 可再起
    assert_eq!(runs.start("group-1", false), Some(3));
    // 上一代迟到的退出清理不误删新一代
    runs.ended("group-1", 1);
    assert_eq!(runs.start("group-1", true), None);
    runs.ended("group-1", 3);
    assert_eq!(runs.start("group-1", true), Some(4));
    assert_eq!(runs.stop("group-2"), Some(2));
    assert_eq!(runs.stop("group-2"), None);
    let _ = ClientMsg::NewSession;
}
