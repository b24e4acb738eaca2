//! The message channel: frames, fragments, events, cards, and private messages.

use r2_core::agents::{self, AgentProfile, ChannelFeishu};
use r2_core::cards::{
    card_id_of_reply, card_message_request, card_start_step, check_reply, create_card_request, reaction_request,
    step_reply, text_request, CardStart, CardStep, StreamingCard,
};
use r2_core::channels::{
    ack_frame, chunk_text, endpoint_of_reply, endpoint_request, handle_frame, header_get, heartbeat_expired,
    next_loop_action, parse_event, parse_service_id, ping_frame, rand_below_inclusive, status_changes,
    status_of_action, token_of_reply, token_request, token_retry, token_usable, updated_params, ChannelStatus,
    ClientParams, DedupLru, EndpointError, FeishuConfig, FragmentCache, FrameOutcome, FrameState, LoopAction, LoopEvent,
    CARD_THROTTLE_NANOS, FRAG_TTL_NANOS,
};
use r2_core::config::{Config, ModelProfile};
use r2_core::dm::{
    channel_set_json, channel_status_str, channels_json, check_channel_test, delivery, dm_final_text, dm_key, enter_dm,
    feishu_allowed, fmt_tok, in_flight_reply, model_list_reply, model_reply, new_refused, new_reply, parse_slash,
    plan_channels, show_process_mode, status_line, status_reply, test_verdict, thumbs_up,
    tool_call_summary, unknown_reply, Delivery, DmAction, DmEntry, DmInFlight, DmOutcome, DmPlace, DmQueue, DmShow, Rebuilt,
    RunningChannel, ShowProcess, Slash, DM_HELP,
};
use r2_core::events::AgentEvent;
use r2_core::json::Json;
use r2_core::pb::{self, Frame, Header};
use r2_core::types::UsageStats;

fn sample_frame() -> Frame {
    Frame {
        seq_id: u64::MAX - 1, // 大 varint：10 字节编码
        log_id: 123_456_789_012_345,
        service: -7, // 负 int32：10 字节符号扩展 varint
        method: 1,
        headers: vec![
            Header { key: "type".to_string(), value: "event".to_string() },
            Header { key: "message_id".to_string(), value: "msg_abc".to_string() },
            Header { key: "sum".to_string(), value: "1".to_string() },
        ],
        payload_encoding: Some("utf-8".to_string()),
        payload_type: Some("json".to_string()),
        payload: Some(vec![0, 1, 2, 0xff, 0xfe, 0x80]),
        log_id_new: Some("trace-xyz".to_string()),
    }
}

#[test]
fn pb_roundtrip() {
    let f = sample_frame();
    let enc = pb::encode_frame(&f);
    let dec = pb::decode_frame(&enc).expect("解码失败");
    assert_eq!(f, dec);
}

#[test]
fn pb_decode_tolerates_unknown_fields() {
    let f = sample_frame();
    let mut enc = pb::encode_frame(&f);
    // 手工拼未知字段：field15 varint=99、field14 len-delim "abc"、
    // field13 fixed32、field12 fixed64
    enc.push(15 << 3); // tag: field15, wire0
    enc.push(99);
    enc.push(14 << 3 | 2); // tag: field14, wire2
    enc.push(3);
    enc.extend_from_slice(b"abc");
    enc.push(13 << 3 | 5); // tag: field13, wire5
    enc.extend_from_slice(&[1, 2, 3, 4]);
    enc.push(12 << 3 | 1); // tag: field12, wire1
    enc.extend_from_slice(&[1, 2, 3, 4, 5, 6, 7, 8]);
    let dec = pb::decode_frame(&enc).expect("含未知字段应仍可解码");
    assert_eq!(f, dec);
}

#[test]
fn frames_on_the_wire() {
    let f = Frame {
        seq_id: 0,
        log_id: 0,
        service: 1,
        method: 0,
        headers: vec![Header { key: "a".into(), value: "bc".into() }],
        payload_encoding: None,
        payload_type: None,
        payload: None,
        log_id_new: None,
    };
    assert_eq!(
        pb::encode_frame(&f),
        vec![0x18, 1, 0x2a, 7, 0x0a, 1, b'a', 0x12, 2, b'b', b'c']
    );
    // 截断的帧不可解
    assert!(pb::decode_frame(&[0x0a]).is_none());
    assert!(pb::decode_frame(&[0x08, 0x80]).is_none());
    // 空帧 = 全默认
    assert_eq!(pb::decode_frame(&[]).unwrap().headers.len(), 0);
    let mut buf = Vec::new();
    pb::put_varint(&mut buf, 300);
    assert_eq!(buf, vec![0xac, 0x02]);
    let mut pos: usize = 0;
    assert_eq!(pb::get_varint(&buf, &mut pos), Some(300));
    assert_eq!(pos, 2);
    for n in [0, 1, 127, 128, u64::MAX] {
        let mut b = Vec::new();
        pb::put_varint(&mut b, n);
        let mut pos: usize = 0;
        assert_eq!(pb::get_varint(&b, &mut pos), Some(n));
    }
    // 两帧相连 = 重复字段合并
    let mut two = pb::encode_frame(&f);
    two.extend(pb::encode_frame(&f));
    assert_eq!(pb::decode_frame(&two).unwrap().headers.len(), 2);
    // 非 UTF-8 文本以替换符读出
    let bad = [0x2a, 5, 0x0a, 1, 0xff, 0x12, 0];
    assert_eq!(pb::decode_frame(&bad).unwrap().headers[0].key, "\u{fffd}");
}

#[test]
fn fragment_reassembly_out_of_order() {
    let mut cache = FragmentCache::new();
    // sum=3，seq=2,0,1 乱序到达
    assert!(cache.insert("m1", 3, 2, b"c".to_vec(), 0).is_none());
    assert!(cache.insert("m1", 3, 0, b"a".to_vec(), 0).is_none());
    let full = cache.insert("m1", 3, 1, b"b".to_vec(), 0).expect("应重组完成");
    assert_eq!(full, b"abc");
    // 重组完成后缓存应清空，同 id 可复用
    assert!(cache.is_empty());
}

#[test]
fn fragments_do_not_mix() {
    let mut cache = FragmentCache::new();
    assert!(cache.insert("m", 2, 1, b"b".to_vec(), 0).is_none());
    assert!(cache.insert("n", 2, 0, b"x".to_vec(), 1).is_none());
    assert_eq!(cache.insert("n", 2, 1, b"y".to_vec(), 2), Some(b"xy".to_vec()));
    assert_eq!(cache.insert("m", 2, 0, b"a".to_vec(), 3), Some(b"ab".to_vec()));
    assert!(cache.is_empty());
}

#[test]
fn fragment_numbers_may_start_anywhere() {
    let mut cache = FragmentCache::new();
    assert!(cache.insert("m", 3, 9, b"c".to_vec(), 0).is_none());
    assert!(cache.insert("m", 3, 2, b"a".to_vec(), 1).is_none());
    assert_eq!(cache.insert("m", 3, 5, b"b".to_vec(), 2), Some(b"abc".to_vec()));
    assert!(cache.is_empty());
}

#[test]
fn fragments_expire() {
    let mut cache = FragmentCache::new();
    assert_eq!(cache.insert("x", 1, 0, b"whole".to_vec(), 0), Some(b"whole".to_vec()));
    assert!(cache.insert("m", 2, 0, b"a".to_vec(), 0).is_none());
    // 过期后旧片作废
    assert!(cache.insert("m", 2, 1, b"b".to_vec(), FRAG_TTL_NANOS + 1).is_none());
    assert_eq!(cache.insert("m", 2, 0, b"a".to_vec(), FRAG_TTL_NANOS + 2), Some(b"ab".to_vec()));
}

#[test]
fn parse_event_json() {
    let payload = r#"{"header":{"event_type":"im.message.receive_v1","tenant_key":"t1","app_id":"cli_xxx"},"event":{"sender":{"sender_id":{"open_id":"ou_xxx","union_id":"on_yyy"},"sender_type":"user"},"message":{"message_id":"om_xxx","chat_id":"oc_xxx","chat_type":"p2p","message_type":"text","content":"{\"text\":\"用户消息\"}","create_time":"1700000000"}}}"#.as_bytes();
    let dm = parse_event(payload).expect("事件解析失败");
    assert_eq!(dm.open_id, "ou_xxx");
    assert_eq!(dm.message_id, "om_xxx");
    assert_eq!(dm.text, "用户消息");
    // 非文本类型 text 为空串
    let payload2 = br#"{"header":{"event_type":"im.message.receive_v1"},"event":{"sender":{"sender_id":{"open_id":"ou_1"}},"message":{"message_id":"om_2","message_type":"image","content":"{\"image_key\":\"k\"}"}}}"#;
    let dm2 = parse_event(payload2).expect("图片事件应解析");
    assert_eq!(dm2.text, "");
    // 非消息事件返回 None
    let payload3 = br#"{"header":{"event_type":"im.chat.updated"},"event":{}}"#;
    assert!(parse_event(payload3).is_none());
}

#[test]
fn dedup_lru() {
    let mut lru = DedupLru::new(512);
    assert!(lru.check_and_insert("om_1")); // 首次：应处理
    assert!(!lru.check_and_insert("om_1")); // 重投：跳过
    assert!(lru.check_and_insert("om_2"));
    // 空 id 不参与去重
    assert!(lru.check_and_insert(""));
    assert!(lru.check_and_insert(""));
    // 容量淘汰：cap=2 时最老条目被挤出后可重新插入
    let mut small = DedupLru::new(2);
    assert!(small.check_and_insert("a"));
    assert!(small.check_and_insert("b"));
    assert!(small.check_and_insert("c")); // 挤出 "a"
    assert!(small.check_and_insert("a")); // "a" 已被淘汰，视为新
}

#[test]
fn parse_service_id_from_url() {
    assert_eq!(parse_service_id("wss://open.feishu.cn/ws?device_id=abc&service_id=123"), 123);
    assert_eq!(parse_service_id("wss://x/ws?foo=1"), 0);
    assert_eq!(parse_service_id("wss://x/ws"), 0);
}

fn cfg() -> FeishuConfig {
    FeishuConfig { app_id: "id".into(), app_secret: "sec".into(), domain: String::new() }
}

#[test]
fn endpoints() {
    let (url, body) = endpoint_request(&cfg());
    assert_eq!(url, "https://open.feishu.cn/callback/ws/endpoint");
    assert_eq!(body.write(), r#"{"AppID":"id","AppSecret":"sec"}"#);
    let reply = |t: &str| endpoint_of_reply(&Json::read(t).unwrap());
    let ep = reply(
        r#"{"code":0,"data":{"URL":"wss://x?service_id=9","ClientConfig":{"PingInterval":5,"ReconnectCount":-1}}}"#,
    )
    .unwrap();
    assert_eq!(ep.service_id, 9);
    // 心跳间隔有下限
    assert_eq!(ep.params.ping_interval, 10);
    assert_eq!(ep.params.reconnect_count, -1);
    assert_eq!(ep.params.reconnect_interval, 15);
    assert_eq!(
        reply(r#"{"code":99991663,"msg":"bad"}"#).unwrap_err(),
        EndpointError::Fatal("接入点鉴权失败 code=99991663 msg=bad".into())
    );
    assert!(matches!(reply(r#"{"code":1,"msg":"busy"}"#), Err(EndpointError::Retry(_))));
    assert!(matches!(reply(r#"{"code":0,"data":{}}"#), Err(EndpointError::Retry(_))));
    let p = updated_params(ClientParams::default(), &Json::read(r#"{"PingInterval":-3,"ReconnectNonce":7}"#).unwrap());
    assert_eq!((p.ping_interval, p.reconnect_nonce), (30, 7));
}

#[test]
fn reconnecting_is_bounded() {
    let p = ClientParams { reconnect_count: 2, ..ClientParams::default() };
    assert_eq!(next_loop_action(0, p, LoopEvent::EndpointFatal, 1), (0, LoopAction::Refused));
    assert_eq!(next_loop_action(0, p, LoopEvent::EndpointRetry, 1), (1, LoopAction::Wait { secs: 15 }));
    assert_eq!(next_loop_action(1, p, LoopEvent::ConnectionFailed, 6), (2, LoopAction::Wait { secs: 2 }));
    assert_eq!(next_loop_action(2, p, LoopEvent::EndpointRetry, 1), (3, LoopAction::GiveUp { limit: 2 }));
    assert_eq!(next_loop_action(2, p, LoopEvent::Disconnected, 4), (0, LoopAction::Wait { secs: 0 }));
    let p = ClientParams { reconnect_count: -1, ..p };
    assert!(matches!(next_loop_action(9999, p, LoopEvent::EndpointRetry, 1).1, LoopAction::Wait { .. }));
    assert_eq!(
        status_of_action(LoopAction::GiveUp { limit: 2 }, ""),
        ChannelStatus::Failed("重连次数超限(2)".into())
    );
    assert_eq!(status_of_action(LoopAction::Refused, "no"), ChannelStatus::Failed("no".into()));
    assert_eq!(status_of_action(LoopAction::Wait { secs: 1 }, ""), ChannelStatus::Reconnecting);
    assert_eq!(rand_below_inclusive(3, 7), 3);
    assert!(status_changes(&ChannelStatus::Connecting, &ChannelStatus::Connected));
    assert!(!status_changes(&ChannelStatus::Connected, &ChannelStatus::Connected));
    assert!(heartbeat_expired(u64::MAX, 30));
    assert!(!heartbeat_expired(0, 30));
}

fn event_frame(id: &str, payload: &str) -> Frame {
    let mut f = ping_frame(4);
    f.method = 1;
    f.headers = vec![
        Header { key: "type".into(), value: "event".into() },
        Header { key: "message_id".into(), value: id.into() },
        Header { key: "sum".into(), value: "1".into() },
        Header { key: "seq".into(), value: "0".into() },
    ];
    f.payload = Some(payload.as_bytes().to_vec());
    f
}

const EVENT: &str = r#"{"header":{"event_type":"im.message.receive_v1"},"event":{"sender":{"sender_id":{"open_id":"ou_1"}},"message":{"message_id":"om_2","message_type":"text","content":"{\"text\":\"hi\"}"}}}"#;

#[test]
fn frames_bring_messages_once() {
    let mut state = FrameState {
        params: ClientParams::default(),
        dedup: DedupLru::new(512),
        frags: FragmentCache::new(),
    };
    let bytes = pb::encode_frame(&event_frame("m", EVENT));
    match handle_frame(&mut state, &bytes, 0).unwrap() {
        FrameOutcome::Data { frame, dm } => {
            assert_eq!(dm.unwrap().text, "hi");
            assert_eq!(header_get(&frame, "message_id"), Some("m"));
            let ack = ack_frame(frame, 4, 12);
            assert_eq!(ack.payload.as_deref(), Some(&br#"{"code":200}"#[..]));
        }
        FrameOutcome::Control => panic!("应为数据帧"),
    }
    // 重投不再交付
    match handle_frame(&mut state, &bytes, 0).unwrap() {
        FrameOutcome::Data { dm, .. } => assert!(dm.is_none()),
        FrameOutcome::Control => panic!("应为数据帧"),
    }
    // pong 更新参数
    let mut pong = ping_frame(4);
    pong.headers = vec![Header { key: "type".into(), value: "pong".into() }];
    pong.payload = Some(br#"{"PingInterval":60}"#.to_vec());
    let bytes = pb::encode_frame(&pong);
    assert!(matches!(handle_frame(&mut state, &bytes, 0).unwrap(), FrameOutcome::Control));
    assert_eq!(state.params.ping_interval, 60);
    assert_eq!(handle_frame(&mut state, &[0x0a], 0).err().unwrap(), "帧解码失败");
}

#[test]
fn tokens() {
    let (url, body) = token_request(&cfg());
    assert_eq!(url, "https://open.feishu.cn/open-apis/auth/v3/tenant_access_token/internal");
    assert_eq!(body.write(), r#"{"app_id":"id","app_secret":"sec"}"#);
    let (t, life) =
        token_of_reply(&Json::read(r#"{"code":0,"tenant_access_token":"t-1","expire":7200}"#).unwrap()).unwrap();
    assert_eq!((t.as_str(), life), ("t-1", 7200));
    assert!(token_of_reply(&Json::read(r#"{"code":5,"msg":"no"}"#).unwrap()).is_err());
    assert!(token_usable(400_000_000_000, 0));
    assert!(!token_usable(300_000_000_000, 0));
    assert!(token_retry(0));
    assert!(!token_retry(3));
}

#[test]
fn long_texts_go_in_pieces() {
    let pieces = chunk_text("一二三四五", 2);
    assert_eq!(pieces, vec!["一二", "三四", "五"]);
    assert_eq!(pieces.concat(), "一二三四五");
    assert_eq!(chunk_text("ab", 4000), vec!["ab"]);
}

#[test]
fn requests_of_the_channel() {
    let (url, body) = reaction_request(&cfg(), "om_1", "Typing");
    assert_eq!(url, "https://open.feishu.cn/open-apis/im/v1/messages/om_1/reactions");
    assert_eq!(body.write(), r#"{"reaction_type":{"emoji_type":"Typing"}}"#);
    let (url, body) = text_request(&cfg(), "ou_1", "你\"好");
    assert_eq!(url, "https://open.feishu.cn/open-apis/im/v1/messages?receive_id_type=open_id");
    assert_eq!(body.get_str("content"), Some(r#"{"text":"你\"好"}"#));
    let (url, body) = create_card_request(&cfg(), true);
    assert!(url.starts_with("https://open.feishu.cn/open-apis/cardkit/v1/cards"));
    assert!(body.write().contains("streaming_mode"));
    let (_, body) = card_message_request(&cfg(), "ou_1", "c9");
    assert!(body.get_str("content").unwrap().contains("c9"));
    let ok = Json::read(r#"{"code":0,"data":{"card_id":"c9"}}"#).unwrap();
    assert_eq!(card_id_of_reply(&ok).unwrap(), "c9");
    assert!(check_reply(&ok, "x", "").is_ok());
    let bad = Json::read(r#"{"code":7,"msg":"m"}"#).unwrap();
    assert_eq!(check_reply(&bad, "W", "（h）").unwrap_err(), "W code=7 msg=m（h）");
    assert_eq!(step_reply(&bad, CardStep::CloseStreaming, 3).unwrap_err(), "ERROR: 关闭流式失败 code=7 msg=m（seq=3）");
    match card_start_step(None, &ok, true, 0) {
        Ok(CardStart::Created { card_id }) => assert_eq!(card_id, "c9"),
        _ => panic!(),
    }
    assert!(matches!(card_start_step(Some("c9".into()), &ok, true, 0), Ok(CardStart::Sent(_))));
    assert!(card_start_step(None, &Json::read(r#"{"code":0}"#).unwrap(), true, 0).is_err());
}

#[test]
fn cards_carry_the_whole_text() {
    let mut c = StreamingCard::new("c1".into(), true, 0);
    assert!(c.has_note());
    // 节流窗口内不发
    assert_eq!(c.update_content("a", CARD_THROTTLE_NANOS - 1), None);
    assert_eq!(c.update_content("ab", CARD_THROTTLE_NANOS), Some(CardStep::PutContent));
    let (url, body, seq) = c.request(&cfg(), CardStep::PutContent);
    assert_eq!(url, "https://open.feishu.cn/open-apis/cardkit/v1/cards/c1/elements/content/content");
    assert_eq!((body.get_str("content"), body.get_str("uuid"), seq), (Some("ab"), Some("s_c1_1"), 1));
    assert_eq!(c.update_note("n", CARD_THROTTLE_NANOS + 1), None);
    assert_eq!(
        c.finalize("done", Some("line")),
        vec![CardStep::PutNote, CardStep::PutContent, CardStep::CloseStreaming]
    );
    let (_, body, seq) = c.request(&cfg(), CardStep::PutNote);
    assert_eq!((body.get_str("content"), seq), (Some("<font color='grey'>line</font>"), 2));
    let (_, body, _) = c.request(&cfg(), CardStep::PutContent);
    assert_eq!(body.get_str("content"), Some("done"));
    let mut plain = StreamingCard::new("c2".into(), false, 0);
    assert_eq!(plain.update_note("x", u64::MAX), None);
    assert_eq!(plain.finalize("t", None), vec![CardStep::PutContent, CardStep::CloseStreaming]);
}

// ---------- private messages ----------

#[test]
fn test_feishu_whitelist() {
    // 策略四档：deny_all / allow_all / allow_list / deny_list
    let mut cf = ChannelFeishu::default();
    // deny_all（默认）= 拒绝所有人
    assert!(!feishu_allowed(&cf, "ou_a"));
    // allow_all = 允许所有人
    cf.dm_policy = "allow_all".into();
    assert!(feishu_allowed(&cf, "ou_a"));
    // allow_list = 仅名单内
    cf.dm_policy = "allow_list".into();
    cf.policy_list = vec!["ou_a".into()];
    assert!(feishu_allowed(&cf, "ou_a"));
    assert!(!feishu_allowed(&cf, "ou_b"));
    // deny_list = 拒绝名单内，其余放行
    cf.dm_policy = "deny_list".into();
    assert!(!feishu_allowed(&cf, "ou_a"));
    assert!(feishu_allowed(&cf, "ou_b"));
    // 老档案 allow_from 归一：["*"] → allow_all；非空 → allow_list
    let mut old = ChannelFeishu::default();
    old.allow_from = vec!["*".into()];
    assert!(feishu_allowed(&old, "ou_any"));
    let mut old2 = ChannelFeishu::default();
    old2.allow_from = vec!["ou_x".into()];
    assert!(feishu_allowed(&old2, "ou_x"));
    assert!(!feishu_allowed(&old2, "ou_y"));
}

#[test]
fn test_dm_key() {
    assert_eq!(dm_key("cfo", "ou_1"), "cfo|ou_1");
    assert_eq!(dm_key("main", "ou_1"), "main|ou_1");
    // 同 open_id 不同 agent 不串台
    assert_ne!(dm_key("a", "ou_1"), dm_key("b", "ou_1"));
}

#[test]
fn test_show_process_mode() {
    assert_eq!(show_process_mode("none"), ShowProcess::Silent);
    assert_eq!(show_process_mode("compact"), ShowProcess::Compact);
    assert_eq!(show_process_mode("full"), ShowProcess::Full);
    // 空串/未识别值按默认 compact
    assert_eq!(show_process_mode(""), ShowProcess::Compact);
    assert_eq!(show_process_mode("verbose"), ShowProcess::Compact);
    // 档位序：None < Compact < Full
    assert!(ShowProcess::Silent < ShowProcess::Compact);
    assert!(ShowProcess::Compact < ShowProcess::Full);
}

#[test]
fn test_tool_call_summary() {
    assert_eq!(tool_call_summary("bash", "{}"), "🔧 bash {}");
    // 参数超 60 字截断加省略号
    let long = "x".repeat(100);
    let s = tool_call_summary("read", &long);
    assert!(s.starts_with("🔧 read "));
    assert!(s.ends_with('…'));
    assert_eq!(s.chars().count(), "🔧 read ".chars().count() + 61);
}

#[test]
fn tokens_in_short() {
    assert_eq!(fmt_tok(999), "999");
    assert_eq!(fmt_tok(1234), "1.2k");
    assert_eq!(fmt_tok(1_234_567), "1.2m");
}

#[test]
fn commands_are_told_from_words() {
    assert!(parse_slash("hello /new").is_none());
    assert!(matches!(parse_slash(" /help "), Some(Slash::Help)));
    assert!(matches!(parse_slash("/status"), Some(Slash::Status)));
    assert!(matches!(parse_slash("/new"), Some(Slash::New)));
    match parse_slash("/model  glm ") {
        Some(Slash::Model(m)) => assert_eq!(m, "glm"),
        other => panic!("{other:?}"),
    }
    match parse_slash("/model") {
        Some(Slash::Model(m)) => assert_eq!(m, ""),
        other => panic!("{other:?}"),
    }
    match parse_slash("/fly away") {
        Some(Slash::Unknown(c)) => assert_eq!(c, "/fly"),
        other => panic!("{other:?}"),
    }
    assert_eq!(unknown_reply("/fly"), "未知命令 /fly——/help 查看可用命令");
    assert!(DM_HELP.starts_with("📋 可用命令：\n"));
}

#[test]
fn commands_are_answered() {
    let mut cfg = Config::default_config();
    assert_eq!(
        status_reply(&cfg, Some(&ChannelStatus::Connected), true, 2),
        "🤖 模型：gpt-4o（档案 （单模型配置））\n📭 会话：处理中（排队 2 条）\n🔌 通道：connected\n📦 沙箱：container"
    );
    assert_eq!(
        model_list_reply(&cfg),
        "（config.toml 未配置 [[model.profiles]]，只有单模型：gpt-4o）"
    );
    cfg.model.profiles = vec![
        ModelProfile { name: "a".into(), model: "m1".into() },
        ModelProfile { name: "b".into(), model: "m2".into() },
    ];
    cfg.model.active_profile = "b".into();
    assert_eq!(model_list_reply(&cfg), "可用模型档案：\n· a → m1\n· b → m2 ✓当前\n用法：/model 档案名");
    assert!(status_reply(&cfg, None, false, 0).contains("（档案 b）\n📭 会话：空闲（排队 0 条）\n🔌 通道：stopped"));
    assert_eq!(new_refused(DmPlace::Nothing).unwrap(), "当前没有进行中的会话，直接发消息即可");
    assert_eq!(new_refused(DmPlace::Busy).unwrap(), "（正在处理消息，完成后在发 /new）");
    assert_eq!(new_refused(DmPlace::Free), None);
    assert_eq!(
        new_reply(&Ok(Some("0123456789".into()))),
        "🆕 新话题已开启（01234567…）——历史已归档，我们从头开始"
    );
    assert_eq!(new_reply(&Ok(None)), "🆕 新话题已开启（…）——历史已归档，我们从头开始");
    assert_eq!(new_reply(&Err("x".into())), "（新建会话失败：x）");
    let ok: Result<String, String> = Ok("m1".into());
    assert_eq!(model_reply("a", &Err("没有".into()), &Rebuilt::Done), "（没有）");
    assert_eq!(model_reply("a", &ok, &Rebuilt::Done), "模型已切换为 m1（a）\n会话已按新模型重建（历史保留）");
    assert_eq!(
        model_reply("a", &ok, &Rebuilt::NoSession),
        "模型已切换为 m1（a）\n（当前无会话，下一条消息将以新模型开始）"
    );
    assert_eq!(
        model_reply("a", &ok, &Rebuilt::Busy),
        "模型已切换为 m1（a）\n（正在处理消息，当前会话不动；下一条新消息用新模型）"
    );
    assert_eq!(
        model_reply("a", &ok, &Rebuilt::Failed("e".into())),
        "模型已切换为 m1（a）\n（会话重建失败：e；新消息将新建会话）"
    );
}

#[test]
fn messages_come_in() {
    let mut cf = ChannelFeishu::default();
    match enter_dm(&cf, "ou_1", "hi") {
        DmEntry::Reply(t) => assert_eq!(t, "（未授权：该机器人设置了访问限制）"),
        _ => panic!(),
    }
    cf.dm_policy = "allow_all".into();
    match enter_dm(&cf, "ou_1", "  ") {
        DmEntry::Reply(t) => assert_eq!(t, "v1 只支持文本消息"),
        _ => panic!(),
    }
    assert!(matches!(enter_dm(&cf, "ou_1", "/new"), DmEntry::Command(Slash::New)));
    assert!(matches!(enter_dm(&cf, "ou_1", "hi"), DmEntry::Prompt));
}

#[test]
fn messages_wait_in_order() {
    let mut q = DmQueue::new();
    assert_eq!(q.offer("s", "m", true), DmInFlight::Steered);
    for i in 0..8 {
        assert_eq!(q.offer(&format!("t{i}"), "m", false), DmInFlight::Queued);
    }
    assert_eq!(q.offer("t8", "m", false), DmInFlight::Full);
    assert_eq!(q.len(), 8);
    q.take_late(vec!["late".into()]);
    assert_eq!(q.next(), Some(("t0".to_string(), "m".to_string())));
    let mut last = None;
    while let Some(x) = q.next() {
        last = Some(x);
    }
    assert_eq!(last, Some(("late".to_string(), String::new())));
    assert_eq!(in_flight_reply(DmInFlight::Steered).unwrap(), "⚡ 已插入当前回复（转向中）");
    assert_eq!(in_flight_reply(DmInFlight::Full).unwrap(), "（忙，请稍后再发）");
    assert_eq!(in_flight_reply(DmInFlight::Queued), None);
}

fn act(a: Option<DmAction>) -> String {
    match a {
        None => String::new(),
        Some(DmAction::Content(s)) => format!("content {s}"),
        Some(DmAction::Note(s)) => format!("note {s}"),
        Some(DmAction::Send(s)) => format!("send {s}"),
    }
}

#[test]
fn runs_are_shown_on_a_card() {
    let mut s = DmShow::new(ShowProcess::Full, true);
    assert_eq!(act(s.on_event(&AgentEvent::MessageUpdate("你".into())).0), "content 你");
    assert_eq!(act(s.on_event(&AgentEvent::MessageUpdate("好".into())).0), "content 你好");
    assert_eq!(act(s.on_event(&AgentEvent::Thinking("想".into())).0), "note 想");
    let call = AgentEvent::ToolCall { name: "read".into(), arguments: "{}".into() };
    assert_eq!(act(s.on_event(&call).0), "note 想\n🔧 read {}");
    let long = "字".repeat(1300);
    let note = act(s.on_event(&AgentEvent::Thinking(long)).0);
    assert_eq!(note.chars().count(), "note ".len() + 1200);
    assert_eq!(act(s.on_event(&AgentEvent::Steered("x".into())).0), "note ⚡ 收到用户中途指令，转向中…");
    let u = UsageStats { input_tokens: 10, output_tokens: 2, cached_tokens: 5, llm_calls: 1 };
    assert!(s.on_event(&AgentEvent::UsageUpdate(u)).0.is_none());
    assert_eq!(s.usage(), Some(u));
    assert_eq!(s.heartbeat(), None);
    let (a, end) = s.on_event(&AgentEvent::Done { final_text: "x".into() });
    assert!(a.is_none() && end);
    let mut c = DmShow::new(ShowProcess::Compact, true);
    assert_eq!(act(c.on_event(&call).0), "note 🔧 read {}");
    assert!(c.on_event(&AgentEvent::Thinking("想".into())).0.is_none());
}

#[test]
fn runs_are_shown_without_a_card() {
    let mut s = DmShow::new(ShowProcess::Full, false);
    assert!(s.on_event(&AgentEvent::MessageUpdate("你".into())).0.is_none());
    assert!(s.on_event(&AgentEvent::Thinking("a".repeat(499))).0.is_none());
    let sent = act(s.on_event(&AgentEvent::Thinking("b".into())).0);
    assert_eq!(sent.chars().count(), "send 💭 ".chars().count() + 500);
    assert!(s.on_event(&AgentEvent::Thinking("rest".into())).0.is_none());
    let (a, end) = s.on_event(&AgentEvent::Done { final_text: "x".into() });
    assert_eq!((act(a).as_str(), end), ("send 💭 rest", true));
    assert!(s.on_event(&AgentEvent::Error("e".into())).1);
    let call = AgentEvent::ToolCall { name: "read".into(), arguments: "{}".into() };
    let mut c = DmShow::new(ShowProcess::Compact, false);
    assert_eq!(act(c.on_event(&call).0), "send 🔧 read {}");
    let mut q = DmShow::new(ShowProcess::Silent, false);
    assert!(q.on_event(&call).0.is_none());
    assert!(q.on_event(&AgentEvent::Thinking("t".into())).0.is_none());
    assert_eq!(q.heartbeat().unwrap(), "⏳ 仍在处理中…");
}

#[test]
fn runs_end() {
    let u = UsageStats { input_tokens: 12_000, output_tokens: 300, cached_tokens: 9_000, llm_calls: 1 };
    assert_eq!(
        status_line("glm", Some(&u), Some("0.12")),
        "🤖 glm · ↑12.0k ↓300 tok · 💾 cache 75% · ≈¥0.12"
    );
    assert_eq!(status_line("glm", Some(&UsageStats::default()), None), "🤖 glm · ↑0 ↓0 tok · 💾 cache 0%");
    assert_eq!(status_line("glm", None, Some("1")), "🤖 glm");
    assert_eq!(dm_final_text(&DmOutcome::Answer("a".into())), "a");
    assert_eq!(dm_final_text(&DmOutcome::Timeout), "（超时 600 秒，未能完成回复）");
    let e = dm_final_text(&DmOutcome::Failed("错".repeat(300)));
    assert_eq!(e.chars().count(), "（出错：）".chars().count() + 200);
    let answer = DmOutcome::Answer("a".into());
    assert_eq!(delivery(true, false, &answer), Delivery::Card);
    assert_eq!(delivery(true, true, &answer), Delivery::Message);
    assert_eq!(delivery(true, true, &DmOutcome::Timeout), Delivery::Untold);
    assert_eq!(delivery(true, true, &DmOutcome::Failed("e".into())), Delivery::Untold);
    assert_eq!(delivery(false, false, &DmOutcome::Timeout), Delivery::Message);
    assert!(thumbs_up(&DmOutcome::Answer("a".into()), "m"));
    assert!(!thumbs_up(&DmOutcome::Answer("a".into()), ""));
    assert!(!thumbs_up(&DmOutcome::Failed("e".into()), "m"));
}

fn active(name: &str, id: &str, secret: &str) -> AgentProfile {
    let p = agents::draft_profile_at(name, false, "", "", "", "", 1).unwrap();
    let mut p = agents::approve(name, Some(p)).unwrap();
    p.channel_feishu.enabled = true;
    p.channel_feishu.app_id = id.into();
    p.channel_feishu.app_secret = secret.into();
    p
}

fn running(agent: &str, id: &str, secret: &str) -> RunningChannel {
    RunningChannel { agent: agent.into(), app_id: id.into(), app_secret: secret.into() }
}

#[test]
fn channels_follow_the_profiles() {
    let mut off = active("off", "i", "s");
    off.channel_feishu.enabled = false;
    let mut pending = active("pending", "i", "s");
    pending.state = "pending".into();
    let profiles = vec![active("new", "i", "s"), active("same", "i", "s"), active("changed", "i", "s2"), off, pending];
    let table = vec![running("same", "i", "s"), running("changed", "i", "s"), running("gone", "i", "s"), running("off", "i", "s")];
    let plan = plan_channels(&profiles, &table);
    assert_eq!(plan.stop, vec!["gone", "off"]);
    let starts: Vec<(usize, bool)> = plan.start.iter().map(|s| (s.profile, s.replaces)).collect();
    assert_eq!(starts, vec![(0, false), (2, true)]);
    // 再对账一次 = 无事可做
    let after = vec![running("new", "i", "s"), running("same", "i", "s"), running("changed", "i", "s2")];
    let plan = plan_channels(&profiles, &after);
    assert!(plan.stop.is_empty() && plan.start.is_empty());
}

#[test]
fn channels_in_the_state() {
    let mut listed = active("a", "cli", "hidden");
    listed.channel_feishu.allow_from = vec!["ou_1".into()];
    let plain = agents::draft_profile_at("b", false, "", "", "", "", 1).unwrap();
    let v = channels_json(&vec![listed.clone(), plain], &vec![("a".into(), ChannelStatus::Failed("x".into()))]);
    assert_eq!(v.len(), 1);
    assert_eq!(v[0].get_str("status"), Some("failed: x"));
    assert_eq!(v[0].get_str("dm_policy"), Some("allow_list"));
    assert!(!v[0].write().contains("hidden"));
    let reply = channel_set_json("a", &listed.channel_feishu);
    assert_eq!(reply.get2_str("config", "show_process"), Some("compact"));
    assert!(!reply.write().contains("hidden"));
    assert_eq!(channel_status_str(&ChannelStatus::Reconnecting), "reconnecting");
    assert_eq!(channel_status_str(&ChannelStatus::Connecting), "connecting");
    assert_eq!(check_channel_test("g", None).unwrap_err(), "agent 不存在：g");
    assert!(check_channel_test("a", Some(&listed)).is_ok());
    let bare = active("c", "", "");
    assert_eq!(check_channel_test("c", Some(&bare)).unwrap_err(), "app_id/app_secret 未配置");
    assert_eq!(test_verdict(&ChannelStatus::Connected), Some((true, "连接成功".to_string())));
    assert_eq!(test_verdict(&ChannelStatus::Failed("e".into())), Some((false, "e".to_string())));
    assert_eq!(test_verdict(&ChannelStatus::Connecting), None);
}
