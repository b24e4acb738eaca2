//! Memories across sessions.

use r2_core::config::Config;
use r2_core::json::Json;
use r2_core::memory::{
    api_embedding_id, best_hits, bucket_counts, build_embedding_provider, decay_factor, decode_emb, delete_line,
    embedding_retry, embeddings_url, encode_emb, fnv1a, group_rows, hit_lines, list_lines, memory_db_path,
    migrate_line, now_secs, parse_embedding_response, progress_due, progress_line, stats_lines, vector_of_row,
    EmbeddingBackend, HashEmbedding, MemoryEntry, MemoryHit, MemoryKey, MemoryRow, MemoryStats, MemoryStore,
    MigrateReport, RowVector, ScoredRow, EMBED_DIM, MAX_ANSWER_CHARS,
};

fn norm(v: &[f32]) -> f32 {
    v.iter().map(|x| x * x).sum::<f32>().sqrt()
}

fn embed(text: &str) -> Vec<f32> {
    let mut v: Vec<f32> = bucket_counts(text).unwrap().iter().map(|c| *c as f32).collect();
    let n = norm(&v);
    if n > 0.0 {
        for x in &mut v {
            *x /= n;
        }
    }
    v
}

fn cosine(a: &[f32], b: &[f32]) -> f32 {
    a.iter().zip(b).map(|(x, y)| x * y).sum()
}

struct Stored {
    id: i64,
    key: MemoryKey,
    emb: Vec<u8>,
    dim: i64,
    superseded: bool,
    created_at: i64,
}

/// A table in memory with the store that decides on it.
struct Table {
    store: MemoryStore,
    rows: Vec<Stored>,
}

fn bits(v: &[f32]) -> Vec<u32> {
    v.iter().map(|x| x.to_bits()).collect()
}

fn floats(blob: &[u8]) -> Vec<f32> {
    decode_emb(blob).into_iter().map(f32::from_bits).collect()
}

impl Table {
    fn new() -> Table {
        Table { store: MemoryStore::open(&vec![], "hash"), rows: Vec::new() }
    }

    fn scored(&self, v: &[f32], close: impl Fn(f32) -> bool) -> Vec<ScoredRow> {
        let now = now_secs();
        self.rows
            .iter()
            .map(|r| {
                let raw = cosine(v, &floats(&r.emb));
                let adjusted = raw * decay_factor(r.created_at, now) as f32 / 100.0;
                ScoredRow {
                    id: r.id,
                    key: r.key.clone(),
                    dim: r.dim,
                    superseded: r.superseded,
                    created_at: r.created_at,
                    close: close(raw),
                    score: (adjusted * 1e6) as i64,
                }
            })
            .collect()
    }

    fn insert(&mut self, sid: &str, q: &str, a: &str, qv: &[f32], av: &[f32], at: i64) {
        for v in [qv, av] {
            let id = self.rows.len() as i64 + 1;
            let key = MemoryKey { session_id: sid.into(), query: q.into(), answer: a.into() };
            self.rows.push(Stored {
                id,
                key,
                emb: encode_emb(&bits(v)),
                dim: v.len() as i64,
                superseded: false,
                created_at: at,
            });
        }
    }

    fn store(&mut self, sid: &str, q: &str, a: &str, qv: &[f32], av: &[f32]) -> Result<(), String> {
        let plan = self.store.store(self.scored(qv, |s| s > 0.92), qv.len(), qv.iter().any(|x| *x != 0.0), a)?;
        for old in &plan.replaces {
            for r in &mut self.rows {
                if r.key.session_id == old.key.session_id
                    && r.key.query == old.key.query
                    && r.key.answer == old.key.answer
                {
                    r.superseded = true;
                }
            }
        }
        self.insert(sid, q, &plan.answer, qv, av, now_secs());
        Ok(())
    }

    fn store_text(&mut self, sid: &str, q: &str, a: &str) {
        self.store(sid, q, a, &embed(q), &embed(a)).unwrap();
    }

    fn search(&self, v: &[f32], k: usize, threshold: f32, asking: &str) -> Result<Vec<MemoryHit>, String> {
        let blank = v.iter().all(|x| *x == 0.0);
        self.store.search(self.scored(v, |s| s >= threshold), v.len(), blank, k, asking)
    }
}

// ---------- vectors ----------

#[test]
fn test_embed_deterministic() {
    assert_eq!(embed("我喜欢蓝色"), embed("我喜欢蓝色"));
}

#[test]
fn test_embed_normalized() {
    let v = embed("我喜欢蓝色，尤其是深蓝色");
    assert!((norm(&v) - 1.0).abs() < 1e-5);
    // 空文本返回零向量
    assert_eq!(norm(&embed("")), 0.0);
}

#[test]
fn test_embed_similarity_order() {
    let a = embed("我喜欢蓝色");
    let similar = embed("喜欢蓝色的我");
    let unrelated = embed("数据库索引优化");
    assert!(cosine(&a, &similar) > cosine(&a, &unrelated));
}

#[test]
fn test_score_identical_text() {
    let a = embed("我最喜欢的颜色是蓝色");
    let b = embed("我最喜欢的颜色是蓝色");
    assert!((cosine(&a, &b) - 1.0).abs() < 1e-5);
}

#[test]
fn test_unrelated_below_threshold() {
    let a = embed("数据库索引优化");
    let b = embed("我养了一只橘猫");
    assert!(cosine(&a, &b) < 0.30);
}

#[test]
fn test_semantic_paraphrase_order() {
    let unrelated = embed("Rust所有权与生命周期");
    let pairs = [
        ("我养了一只橘猫叫咪咪", "我的宠物猫名字"),
        ("我的项目代号是凤凰计划", "凤凰计划代号"),
        ("我最喜欢的颜色是蓝色", "我喜欢的颜色"),
    ];
    for (a, b) in pairs {
        let sim_pair = cosine(&embed(a), &embed(b));
        let sim_unrelated = cosine(&embed(a), &unrelated);
        assert!(
            sim_pair > sim_unrelated,
            "改写对 ({a}, {b}) 相似度 {sim_pair} 应 > 无关对相似度 {sim_unrelated}"
        );
    }
}

#[test]
fn test_hash_embedding_matches_embed_fn() {
    let p = HashEmbedding;
    assert_eq!(p.id(), "hash");
    assert_eq!(p.dim(), EMBED_DIM);
    assert_eq!(embed("我喜欢蓝色").len(), EMBED_DIM);
}

#[test]
fn hashes_of_groups() {
    assert_eq!(fnv1a(b""), 0xcbf29ce484222325);
    assert_eq!(fnv1a(b"a"), 0xaf63dc4c8601ec8c);
    let counts = bucket_counts("ab").unwrap();
    assert_eq!(counts.iter().sum::<u64>(), 3);
    for group in ["a", "b", "ab"] {
        assert!(counts[(fnv1a(group.as_bytes()) % 256) as usize] >= 1);
    }
    let v = vec![1.0f32, -0.5, f32::NAN];
    assert_eq!(decode_emb(&encode_emb(&bits(&v))), bits(&v));
    // 与小端字节一致
    assert_eq!(encode_emb(&bits(&[1.5])), 1.5f32.to_le_bytes());
    assert!(decode_emb(&[1, 2, 3]).is_empty());
}

#[test]
fn test_api_embedding_parse_response() {
    let body = r#"{"object":"list","data":[{"object":"embedding","index":0,"embedding":[0.1,0.2,0.3]}],"model":"embedding-3","usage":{"prompt_tokens":5,"total_tokens":5}}"#;
    let v: Vec<f32> =
        parse_embedding_response(body).unwrap().iter().map(|j| j.write().parse::<f64>().unwrap() as f32).collect();
    assert_eq!(v, vec![0.1f32, 0.2, 0.3]);
    // 缺字段 → 报错
    assert!(parse_embedding_response(r#"{"data":[]}"#).is_err());
    assert!(parse_embedding_response("not json").is_err());
    assert!(parse_embedding_response(r#"{"data":[{"embedding":["x"]}]}"#).is_err());
    assert!(matches!(parse_embedding_response(r#"{"data":[{"embedding":[1]}]}"#).unwrap()[0], Json::Uint(1)));
}

#[test]
fn test_api_embedding_id() {
    assert_eq!(api_embedding_id("embedding-3"), "openai_compat:embedding-3");
    assert_eq!(embeddings_url("https://example.com/v4/"), "https://example.com/v4/embeddings");
}

// ---------- storing and searching ----------

#[test]
fn test_store_and_search() {
    let mut store = Table::new();
    store.store_text("s1", "我喜欢蓝色", "好的，我记住了你喜欢蓝色");
    store.store_text("s1", "今晚吃什么", "推荐你去吃火锅");
    store.store_text("s1", "Rust 泛型怎么写", "用 <T: Trait> 约束即可");

    let hits = store.search(&embed("我最喜欢的颜色"), 3, 0.30, "other").unwrap();
    assert!(!hits.is_empty());
    assert!(hits[0].query.contains("蓝色"));
    // 阈值过滤生效：超高阈值搜不到
    let none = store.search(&embed("我最喜欢的颜色"), 3, 0.999, "other").unwrap();
    assert!(none.is_empty());
}

#[test]
fn test_exclude_current_session() {
    let mut store = Table::new();
    store.store_text("s1", "我喜欢蓝色", "好的，我记住了你喜欢蓝色");
    // 同 session 的条目被排除
    let hits = store.search(&embed("我喜欢蓝色"), 3, 0.0, "s1").unwrap();
    assert!(hits.is_empty());
    // 换 session 能搜到
    let hits = store.search(&embed("我喜欢蓝色"), 3, 0.0, "s2").unwrap();
    assert_eq!(hits.len(), 1);
}

#[test]
fn test_mixed_language_search() {
    let mut store = Table::new();
    store.store_text("s1", "介绍一下 Rust 的 ownership", "ownership 是所有权机制");
    store.store_text("s1", "今天天气怎么样", "我不知道实时天气");
    // 中英混合查询能命中中文条目
    let hits = store.search(&embed("what is ownership in Rust"), 3, 0.1, "s2").unwrap();
    assert!(!hits.is_empty());
    assert!(hits[0].query.contains("ownership"));
}

#[test]
fn test_short_query() {
    let mut store = Table::new();
    store.store_text("s1", "我喜欢蓝色", "好的，我记住了你喜欢蓝色");
    store.store_text("s1", "今晚吃什么", "推荐你去吃火锅");
    // 单字查询：一元 n-gram 应能命中含"蓝"的条目
    let hits = store.search(&embed("蓝"), 3, 0.0, "s2").unwrap();
    assert!(!hits.is_empty());
    assert!(hits[0].query.contains("蓝"));
}

#[test]
fn test_threshold_filter_effective() {
    let mut store = Table::new();
    store.store_text("s1", "我喜欢蓝色", "好的，我记住了你喜欢蓝色");
    // 用改写查询（相似度介于 0~1）：高阈值过滤、零阈值命中
    let none = store.search(&embed("我超喜欢蓝色"), 3, 0.99, "s2").unwrap();
    assert!(none.is_empty());
    let hits = store.search(&embed("我超喜欢蓝色"), 3, 0.0, "s2").unwrap();
    assert!(!hits.is_empty());
    assert!(hits[0].score > 0);
}

#[test]
fn test_dimension_adaptive() {
    let mut store = Table::new();
    store.store = MemoryStore::open(&vec![], "openai_compat:test-model");
    // 手造 768 维向量：A 首维为 1，B 第二维为 1
    let mut va = vec![0.0f32; 768];
    va[0] = 1.0;
    let mut vb = vec![0.0f32; 768];
    vb[1] = 1.0;
    store.store("s1", "记忆A", "回答A", &va, &va).unwrap();
    store.store("s1", "记忆B", "回答B", &vb, &vb).unwrap();
    // 768 维查询正常命中正交方向正确的条目
    let hits = store.search(&va, 5, 0.5, "s2").unwrap();
    assert_eq!(hits.len(), 1);
    assert_eq!(hits[0].query, "记忆A");
    // 维度不一致的查询不回结果（全库跳过）
    let wrong_dim = vec![1.0f32; 256];
    let hits = store.search(&wrong_dim, 5, 0.0, "s2").unwrap();
    assert!(hits.is_empty());
}

#[test]
fn test_model_signature_mismatch() {
    let mut store = Table::new();
    store.store_text("s1", "我喜欢蓝色", "好的");
    // 换后端签名重新打开：search/store 报 Err 提示 migrate
    store.store = MemoryStore::open(&vec!["hash".into()], "openai_compat:embedding-3");
    assert!(store.store.mismatch().is_some());
    let err = store.search(&embed("我喜欢蓝色"), 3, 0.0, "s2");
    assert!(err.is_err());
    let msg = err.unwrap_err();
    assert!(msg.contains("migrate"), "错误应提示 migrate：{msg}");
    let err = store.store("s1", "新记忆", "新回答", &embed("新记忆"), &embed("新回答"));
    assert!(err.is_err());
    assert_eq!(store.rows.len(), 2);
    // 原签名打开则一切正常
    store.store = MemoryStore::open(&vec!["hash".into()], "hash");
    assert!(store.store.mismatch().is_none());
    assert_eq!(store.store.embed_id(), "hash");
    assert!(!store.search(&embed("我喜欢蓝色"), 3, 0.0, "s2").unwrap().is_empty());
}

#[test]
fn test_decay_ordering() {
    let mut store = Table::new();
    let now = now_secs();
    // 两条同文本记忆（同原始分）：一条 30 天内，一条 90 天+
    let qv = embed("我喜欢蓝色");
    let av = embed("好的");
    store.insert("s_old", "我喜欢蓝色", "好的", &qv, &av, now - 100 * 86_400);
    store.insert("s_new", "我喜欢蓝色", "好的", &qv, &av, now - 10 * 86_400);
    let hits = store.search(&qv, 5, 0.0, "other").unwrap();
    assert_eq!(hits.len(), 2);
    // 衰减后新记忆排前
    assert_eq!(hits[0].session_id, "s_new");
    assert_eq!(hits[1].session_id, "s_old");
    assert!(hits[0].score - hits[1].score > 1);
    // 衰减档位：90 天+ 0.75
    let (new, old) = (hits[0].score as f64 / 1e6, hits[1].score as f64 / 1e6);
    assert!((old - new * 0.75).abs() < 1e-4);
}

#[test]
fn test_decay_factor_tiers() {
    let now = 1_000_000_000i64;
    assert_eq!(decay_factor(now, now), 100);
    assert_eq!(decay_factor(now - 30 * 86_400, now), 100);
    assert_eq!(decay_factor(now - 31 * 86_400, now), 90);
    assert_eq!(decay_factor(now - 90 * 86_400, now), 90);
    assert_eq!(decay_factor(now - 91 * 86_400, now), 75);
    assert_eq!(decay_factor(now, i64::MIN), 100);
    assert_eq!(decay_factor(i64::MIN, i64::MAX), 75);
}

#[test]
fn test_supersede_on_near_duplicate() {
    let mut store = Table::new();
    // 长文本微改：hash 后端也能达到 >0.92 的相似度
    let q1 = "我的项目代号是凤凰计划，团队目前有五个人，预计下个月中旬正式启动第一阶段开发工作";
    let q2 = "我的项目代号是凤凰计划，团队目前有六个人，预计下个月中旬正式启动第一阶段开发工作";
    assert!(cosine(&embed(q1), &embed(q2)) > 0.92, "测试数据本身应超过覆盖阈值");
    store.store_text("s1", q1, "好的，已记住凤凰计划");
    store.store_text("s1", q2, "好的，已记住凤凰计划最新进展");
    // 第一条被标记覆盖
    assert!(store.rows.iter().all(|r| r.superseded == (r.key.query == q1)));
    // 检索只回第二条
    let hits = store.search(&embed(q2), 5, 0.0, "s2").unwrap();
    assert_eq!(hits.len(), 1);
    assert_eq!(hits[0].query, q2);
}

#[test]
fn test_no_supersede_when_distinct() {
    let mut store = Table::new();
    store.store_text("s1", "我喜欢蓝色", "好的");
    store.store_text("s1", "数据库索引优化", "用 B+ 树");
    // 相似度低的条目互不覆盖
    assert!(store.rows.iter().all(|r| !r.superseded));
}

fn row(id: i64, key: (&str, &str, &str), close: bool, score: i64) -> ScoredRow {
    ScoredRow {
        id,
        key: MemoryKey { session_id: key.0.into(), query: key.1.into(), answer: key.2.into() },
        dim: 4,
        superseded: false,
        created_at: 7,
        close,
        score,
    }
}

#[test]
fn memories_are_replaced_once() {
    let store = MemoryStore::open(&vec![], "hash");
    let rows = vec![
        row(1, ("s", "q", "a"), true, 0),
        row(2, ("s", "q", "a"), true, 0),
        row(3, ("s", "q", "b"), true, 0),
        row(4, ("s", "x", "a"), false, 0),
    ];
    let long = "长".repeat(MAX_ANSWER_CHARS + 5);
    let plan = store.store(rows, 4, true, &long).unwrap();
    let ids: Vec<i64> = plan.replaces.iter().map(|r| r.id).collect();
    assert_eq!(ids, vec![1, 3]);
    assert_eq!(plan.answer.chars().count(), MAX_ANSWER_CHARS);
    let off = store.store(vec![row(1, ("s", "q", "a"), true, 0)], 4, false, "a").unwrap();
    assert!(off.replaces.is_empty());
}

#[test]
fn hits_are_ranked() {
    let hit = |id: i64, q: &str, score: i64| MemoryHit {
        id,
        query: q.into(),
        answer: "a".into(),
        score,
        session_id: "s".into(),
        created_at: 0,
    };
    let best = best_hits(vec![hit(1, "x", 5), hit(2, "y", 9), hit(3, "x", 7), hit(4, "z", 1)], 2);
    let got: Vec<(i64, i64)> = best.iter().map(|h| (h.id, h.score)).collect();
    assert_eq!(got, vec![(2, 9), (3, 7)]);
    let store = MemoryStore::open(&vec![], "hash");
    assert!(store.search(vec![row(1, ("s", "q", "a"), true, 3)], 4, true, 5, "o").unwrap().is_empty());
    assert_eq!(store.search(vec![row(1, ("s", "q", "a"), true, 3)], 4, false, 5, "o").unwrap().len(), 1);
}

#[test]
fn memories_are_rebuilt_in_groups() {
    let r = |id: i64, q: &str, at: i64| MemoryRow {
        id,
        key: MemoryKey { session_id: "s".into(), query: q.into(), answer: "a".into() },
        created_at: at,
    };
    let groups = group_rows(vec![r(1, "x", 5), r(2, "x", 5), r(3, "y", 6), r(4, "x", 5)]);
    assert_eq!(groups.iter().map(|g| g.ids.len()).sum::<usize>(), 4);
    assert_eq!(groups.len(), 2);
    assert_eq!(groups[0].ids, vec![1, 2, 4]);
    let mut report = MigrateReport::new(3);
    let step = report.take_group(&groups[0], true, true);
    assert_eq!(step.writes, vec![(1, RowVector::Question), (2, RowVector::Answer), (4, RowVector::Answer)]);
    assert_eq!(step.progress, None);
    // 任一嵌入失败：该组原样保留
    assert!(report.take_group(&groups[1], true, false).writes.is_empty());
    let step = report.take_group(&groups[1], true, true);
    assert_eq!(step.writes, vec![(3, RowVector::Question)]);
    assert_eq!(step.progress, Some((3, 3)));
    assert_eq!((report.migrated, report.failed), (2, 1));
    assert_eq!((vector_of_row(0), vector_of_row(1)), (RowVector::Question, RowVector::Answer));
    assert_eq!(migrate_line(&report), "迁移完成：共 3 条，成功 2 条，跳过（失败）1 条");
    assert!(progress_due(50, 120) && progress_due(120, 120) && !progress_due(51, 120));
    assert_eq!(progress_line(50, 120), "重建记忆索引 50/120");
}

#[test]
fn backends_are_chosen() {
    let mut c = Config::default_config();
    assert!(matches!(build_embedding_provider(&c), EmbeddingBackend::Hash));
    c.context.l3_embedding = "api".into();
    assert!(matches!(build_embedding_provider(&c), EmbeddingBackend::Api));
    assert_eq!(memory_db_path(&c, Some("/h")), "/h/.r2/sessions/memory.db");
    assert_eq!(embedding_retry(0, Some(429)), Some(1));
    assert_eq!(embedding_retry(1, None), Some(2));
    assert_eq!(embedding_retry(2, Some(500)), None);
    assert_eq!(embedding_retry(0, Some(400)), None);
}

#[test]
fn memories_are_listed() {
    assert_eq!(list_lines(&vec![]), vec!["暂无记忆"]);
    let e = MemoryEntry {
        id: 3,
        query: "问".into(),
        answer: "答".into(),
        session_id: "s".into(),
        embed_id: "hash".into(),
        created_at: 17,
        superseded: true,
    };
    let lines = list_lines(&vec![e]);
    assert!(lines[0].starts_with("id=3  |  ts=17  |  hash"));
    assert!(lines[0].contains("问"));
    assert_eq!(delete_line(3, true), "已删除记忆 id=3");
    assert_eq!(delete_line(-3, false), "记忆不存在：id=-3");
    let (a, b) = hit_lines("0.500", "问", &"答".repeat(100));
    assert_eq!(a, "score=0.500  |  问：问");
    assert_eq!(b.chars().count(), "           答：".chars().count() + 80);
    let stats = MemoryStats {
        total: 2,
        by_embed_id: vec![("hash".into(), 2)],
        oldest: Some(1),
        newest: Some(9),
    };
    assert_eq!(
        stats_lines(&stats, Some("变更")),
        vec!["记忆总数：2", "嵌入后端分布：", "  hash: 2 条", "时间跨度：ts=1 ~ ts=9", "警告：变更"]
    );
    let empty = MemoryStats { total: 0, by_embed_id: vec![], oldest: None, newest: None };
    assert_eq!(stats_lines(&empty, None), vec!["记忆总数：0", "时间跨度：（空库）"]);
}
