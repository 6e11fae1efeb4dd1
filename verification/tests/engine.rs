//! End-to-end checks of the memory engine's core: chunking, the bounded
//! cache, session continuation, the insight parser's recovery chain, and
//! the document-processing plan.

use agent_memory::cache::EmbeddingCache;
use agent_memory::chunker::DocumentChunk;
use agent_memory::insights::{plan_document, InsightExtractor, ProcessedChunk};
use agent_memory::memory::{
    memories_from_search, parse_tag_response, recent_from_search, search_by_session_from,
    sort_desc, summarize_memories, topic_context_from, zero_embedding, Memory, MemoryManager,
    MemoryPayload, ScoredPoint,
};
use agent_memory::session::{SessionManager, SESSION_WINDOW_MILLIS};
use agent_memory::EMBEDDING_DIM;

fn words(n: usize) -> String {
    let mut s = String::new();
    for i in 0..n {
        if i > 0 {
            s.push(' ');
        }
        s.push('w');
        s.push_str(&i.to_string());
    }
    s
}

fn word_count(s: &str) -> usize {
    s.split_whitespace().count()
}

#[test]
fn chunk_sizes_follow_ceil_rule() {
    // 2500 words, no page markers, window 1000: sizes 1000, 1000, 500.
    let text = words(2500);
    let chunks = DocumentChunk::chunk(&text, 1000);
    assert_eq!(chunks.len(), 3);
    let sizes: Vec<usize> = chunks.iter().map(|c| word_count(&c.text)).collect();
    assert_eq!(sizes, vec![1000, 1000, 500]);
    let idxs: Vec<usize> = chunks.iter().map(|c| c.chunk_index).collect();
    assert_eq!(idxs, vec![0, 1, 2]);
    for c in &chunks {
        assert_eq!(c.page_number, 1);
    }
}

#[test]
fn chunk_even_split_has_no_short_tail() {
    let text = words(2000);
    let chunks = DocumentChunk::chunk(&text, 1000);
    assert_eq!(chunks.len(), 2);
    assert_eq!(word_count(&chunks[0].text), 1000);
    assert_eq!(word_count(&chunks[1].text), 1000);
}

#[test]
fn chunk_pages_number_from_one() {
    let text = format!("{}\n\nPage {}", words(5), words(3));
    let chunks = DocumentChunk::chunk(&text, 2);
    // Page 1: 5 words -> 3 chunks; page 2: 3 words -> 2 chunks.
    assert_eq!(chunks[0].page_number, 1);
    let pages: Vec<usize> = chunks.iter().map(|c| c.page_number).collect();
    assert!(pages.iter().all(|&p| p == 1 || p == 2));
    assert!(pages.windows(2).all(|w| w[0] <= w[1]));
    let idxs: Vec<usize> = chunks.iter().map(|c| c.chunk_index).collect();
    let expect: Vec<usize> = (0..chunks.len()).collect();
    assert_eq!(idxs, expect);
}

#[test]
fn chunk_empty_text_yields_no_chunks() {
    let chunks = DocumentChunk::chunk("", 10);
    assert_eq!(chunks.len(), 0);
}

fn processed(tag: &str) -> ProcessedChunk {
    ProcessedChunk {
        chunk: DocumentChunk {
            text: tag.to_string(),
            page_number: 1,
            chunk_index: 0,
            metadata: None,
        },
        embedding: None,
        insights: Vec::new(),
    }
}

#[test]
fn cache_never_exceeds_capacity_and_evicts_lru() {
    let mut cache = EmbeddingCache::new();
    for k in 0..100u64 {
        cache.insert(k, processed(&k.to_string()));
    }
    assert_eq!(cache.len(), 100);
    // Touch key 0 so that key 1 is now the least recently used.
    assert!(cache.lookup(0).is_some());
    // A 101st distinct key evicts exactly one entry: the least recently
    // touched, which is key 1.
    cache.insert(1000, processed("new"));
    assert_eq!(cache.len(), 100);
    assert!(!cache.contains(1));
    assert!(cache.contains(0));
    assert!(cache.contains(1000));
    for k in 2..100u64 {
        assert!(cache.contains(k));
    }
}

#[test]
fn cache_lookup_returns_stored_value() {
    let mut cache = EmbeddingCache::new();
    cache.insert(7, processed("seven"));
    let got = cache.lookup(7).expect("entry stored");
    assert_eq!(got.chunk.text, "seven");
    assert!(cache.lookup(8).is_none());
}

#[test]
fn extractor_cache_round_trip() {
    let mut ex = InsightExtractor::new();
    let pc = ProcessedChunk {
        chunk: DocumentChunk {
            text: "body".to_string(),
            page_number: 3,
            chunk_index: 17,
            metadata: None,
        },
        embedding: Some(vec![1, 2, 3]),
        insights: Vec::new(),
    };
    ex.cache_chunk(pc);
    let got = ex.get_cached_chunk(3, 17).expect("cached");
    assert_eq!(got.chunk.text, "body");
    assert_eq!(got.embedding, Some(vec![1, 2, 3]));
    assert!(ex.get_cached_chunk(3, 18).is_none());
}

#[test]
fn session_same_id_within_window_new_id_after() {
    let mut sm = SessionManager::new();
    let first = sm.get_or_create_session_at("general", 1_000_000, "id-a".to_string());
    assert_eq!(first, "id-a");
    // A second call 29 minutes later continues the session.
    let again = sm.get_or_create_session_at(
        "other",
        1_000_000 + SESSION_WINDOW_MILLIS - 60_000,
        "id-b".to_string(),
    );
    assert_eq!(again, "id-a");
    // 31 minutes after the refresh, the window has lapsed.
    let late = sm.get_or_create_session_at(
        "other",
        1_000_000 + SESSION_WINDOW_MILLIS - 60_000 + SESSION_WINDOW_MILLIS + 60_000,
        "id-c".to_string(),
    );
    assert_eq!(late, "id-c");
}

#[test]
fn session_clocked_calls_agree_within_window() {
    let mut sm = SessionManager::new();
    let a = sm.get_or_create_session(Some("topic"));
    let b = sm.get_or_create_session(None);
    assert_eq!(a, b);
    assert_eq!(a.len(), 36);
}

#[test]
fn start_new_session_always_takes_fresh_id() {
    let mut sm = SessionManager::new();
    let a = sm.start_new_session("alpha");
    let b = sm.start_new_session("beta");
    assert_eq!(a.len(), 36);
    assert_eq!(b.len(), 36);
    assert_ne!(a, b);
}

#[test]
fn parse_fenced_single_quoted_insight() {
    // A fenced, single-quoted response parses to one insight.
    let ex = InsightExtractor::new();
    let input = "```json\n[{'text': 'a', 'relevance': 0.9}]\n```";
    let got = ex.parse_insights(input);
    assert_eq!(got.len(), 1);
    assert_eq!(got[0].text, "a");
    assert_eq!(got[0].relevance_milli, 900);
    assert!(got[0].embedding.is_none());
    assert!(got[0].metadata.is_none());
}

#[test]
fn parse_strict_array_as_is() {
    let ex = InsightExtractor::new();
    let input = "[{\"text\": \"first\", \"relevance\": 0.95}, {\"relevance\": 0.5, \"text\": \"second\"}]";
    let got = ex.parse_insights(input);
    assert_eq!(got.len(), 2);
    assert_eq!(got[0].text, "first");
    assert_eq!(got[0].relevance_milli, 950);
    assert_eq!(got[1].text, "second");
    assert_eq!(got[1].relevance_milli, 500);
}

#[test]
fn parse_bare_object_gets_wrapped() {
    let ex = InsightExtractor::new();
    let input = "{\"text\": \"solo\", \"relevance\": 1}";
    let got = ex.parse_insights(input);
    assert_eq!(got.len(), 1);
    assert_eq!(got[0].text, "solo");
    assert_eq!(got[0].relevance_milli, 1000);
}

#[test]
fn parse_empty_array_yields_no_insights() {
    let ex = InsightExtractor::new();
    assert_eq!(ex.parse_insights("[]").len(), 0);
}

#[test]
fn parse_garbage_falls_back_to_lines() {
    let ex = InsightExtractor::new();
    let input = "First thought\n\n  Second thought  \n";
    let got = ex.parse_insights(input);
    assert_eq!(got.len(), 2);
    assert_eq!(got[0].text, "First thought");
    assert_eq!(got[0].relevance_milli, 800);
    assert_eq!(got[1].text, "Second thought");
    assert_eq!(got[1].relevance_milli, 800);
}

#[test]
fn plan_keeps_degraded_chunks_but_skips_their_vectors() {
    // Five chunks, the embedding of one failing: five insights come back,
    // four vectors go to the index.
    let mut chunks = Vec::new();
    for i in 0..5usize {
        chunks.push(DocumentChunk {
            text: format!("chunk {}", i),
            page_number: 1,
            chunk_index: i,
            metadata: None,
        });
    }
    let mut embeddings: Vec<Option<Vec<i64>>> = Vec::new();
    for i in 0..5usize {
        if i == 2 {
            embeddings.push(None);
        } else {
            embeddings.push(Some(vec![i as i64; 4]));
        }
    }
    let responses: Vec<String> = (0..5).map(|i| format!("insight {}", i)).collect();
    let (all, points, processed) =
        plan_document(chunks, embeddings, responses, vec![("doc".to_string(), "x".to_string())]);
    assert_eq!(processed.len(), 5);
    assert_eq!(all.len(), 5);
    assert_eq!(points.len(), 4);
    assert!(points.iter().all(|p| p.chunk != 2));
    // Every insight carries its provenance and the caller's metadata.
    for ins in &all {
        let meta = ins.metadata.as_ref().expect("metadata attached");
        assert_eq!(meta.page, 1);
        assert_eq!(meta.extra, vec![("doc".to_string(), "x".to_string())]);
    }
    assert_eq!(all[2].text, "insight 2");
    assert!(all[2].embedding.is_none());
    assert!(all[0].embedding.is_some());
}

fn payload_for(text: &str, ts: i64, role: &str, session: &str) -> MemoryPayload {
    MemoryPayload {
        text: Some(text.to_string()),
        timestamp_millis: Some(ts),
        role: Some(role.to_string()),
        session_id: Some(session.to_string()),
        importance_milli: Some(1000),
        topic_tags: None,
        metadata: None,
    }
}

fn point_for(text: &str, ts: i64, role: &str, session: &str, score: i64) -> ScoredPoint {
    ScoredPoint { id: format!("id-{}", text), score_milli: score, payload: payload_for(text, ts, role, session) }
}

#[test]
fn store_then_search_returns_ping_for_zero_vector() {
    // The store half: a zero-vector embedding of the right dimension is
    // accepted and the payload carries the text.
    let mm = MemoryManager::new();
    let emb = zero_embedding();
    assert_eq!(emb.len(), EMBEDDING_DIM);
    let (mem, payload) = mm
        .prepare_store("ping", "user", &emb, None, 42)
        .expect("dimension is right");
    assert_eq!(mem.text, "ping");
    assert_eq!(mem.session_id, "default");
    // The search half: the index hands the stored payload back as the top
    // hit and decoding preserves it as the top result.
    let hit = ScoredPoint { id: "p1".to_string(), score_milli: 1000, payload };
    let results = memories_from_search(&vec![hit]);
    assert_eq!(results.len(), 1);
    assert_eq!(results[0].text, "ping");
}

#[test]
fn store_rejects_wrong_dimension() {
    let mm = MemoryManager::new();
    let bad = vec![0i64; 5];
    let err = mm.prepare_store("x", "user", &bad, None, 0).unwrap_err();
    assert!(err.is_dimension());
    assert_eq!(err.kind_name(), "dimension mismatch");
}

#[test]
fn undecodable_payloads_are_dropped_silently() {
    let good = point_for("keep", 10, "user", "s", 900);
    let missing_role = ScoredPoint {
        id: "x".to_string(),
        score_milli: 800,
        payload: MemoryPayload {
            text: Some("drop".to_string()),
            timestamp_millis: Some(5),
            role: None,
            session_id: None,
            importance_milli: None,
            topic_tags: None,
            metadata: None,
        },
    };
    let results = memories_from_search(&vec![missing_role, good]);
    assert_eq!(results.len(), 1);
    assert_eq!(results[0].text, "keep");
    assert_eq!(results[0].importance_milli, 1000);
}

#[test]
fn recent_sorts_by_timestamp_descending() {
    let pts = vec![
        point_for("old", 10, "user", "s", 0),
        point_for("new", 30, "assistant", "s", 0),
        point_for("mid", 20, "user", "s", 0),
    ];
    let r = recent_from_search(&pts);
    let texts: Vec<&str> = r.iter().map(|m| m.text.as_str()).collect();
    assert_eq!(texts, vec!["new", "mid", "old"]);
}

#[test]
fn session_filter_keeps_only_matching_session() {
    let pts = vec![
        point_for("a", 1, "user", "s1", 0),
        point_for("b", 2, "user", "s2", 0),
        point_for("c", 3, "user", "s1", 0),
    ];
    let r = search_by_session_from(&pts, "s1");
    let texts: Vec<&str> = r.iter().map(|m| m.text.as_str()).collect();
    assert_eq!(texts, vec!["a", "c"]);
}

#[test]
fn topic_context_ranks_by_importance_and_truncates() {
    let mut p1 = payload_for("low", 1, "user", "s");
    p1.importance_milli = Some(100);
    p1.topic_tags = Some(vec!["rust".to_string()]);
    let mut p2 = payload_for("high", 2, "user", "s");
    p2.importance_milli = Some(900);
    p2.topic_tags = Some(vec!["rust".to_string()]);
    let mut p3 = payload_for("other", 3, "user", "s");
    p3.importance_milli = Some(500);
    p3.topic_tags = Some(vec!["cooking".to_string()]);
    let pts = vec![
        ScoredPoint { id: "1".into(), score_milli: 0, payload: p1 },
        ScoredPoint { id: "2".into(), score_milli: 0, payload: p2 },
        ScoredPoint { id: "3".into(), score_milli: 0, payload: p3 },
    ];
    let r = topic_context_from(&pts, "rust", 1);
    assert_eq!(r.len(), 1);
    assert_eq!(r[0].text, "high");
}

#[test]
fn summarize_renders_one_line_per_memory() {
    let m = Memory {
        text: "hello".to_string(),
        timestamp_millis: 0,
        role: "user".to_string(),
        session_id: "s".to_string(),
        importance_milli: 1000,
        topic_tags: vec![],
        metadata: None,
    };
    let s = summarize_memories(&vec![m]);
    assert_eq!(s, "[1970-01-01 00:00:00] user: hello\n");
}

#[test]
fn tag_response_parses_tags_and_clamped_importance() {
    let (tags, imp) = parse_tag_response("rust, memory , |0.85");
    assert_eq!(tags, vec!["rust".to_string(), "memory".to_string()]);
    assert_eq!(imp, 850);
    let (tags2, imp2) = parse_tag_response("no pipe here");
    assert!(tags2.is_empty());
    assert_eq!(imp2, 1000);
    let (_, imp3) = parse_tag_response("a|7");
    assert_eq!(imp3, 1000);
    let (_, imp4) = parse_tag_response("a|-3");
    assert_eq!(imp4, 0);
    let (tags5, imp5) = parse_tag_response("a|b|c");
    assert!(tags5.is_empty());
    assert_eq!(imp5, 1000);
}

#[test]
fn sort_desc_is_a_permutation() {
    let mk = |t: &str, ts: i64| Memory {
        text: t.to_string(),
        timestamp_millis: ts,
        role: "user".to_string(),
        session_id: "s".to_string(),
        importance_milli: 1000,
        topic_tags: vec![],
        metadata: None,
    };
    let v = vec![mk("b", 2), mk("a", 1), mk("c", 3)];
    let sorted = sort_desc(v, false);
    let texts: Vec<&str> = sorted.iter().map(|m| m.text.as_str()).collect();
    assert_eq!(texts, vec!["c", "b", "a"]);
}
