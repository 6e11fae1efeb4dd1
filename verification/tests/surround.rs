//! Checks of the surrounding helpers: context assembly, request
//! validation, the composer's topic cache and text hygiene, the provider
//! registry, the nutrition clients and the crawler URL fan-out.

use agent_memory::api::{count_words, ChatRequest, LLMProvider, TokenInfo};
use agent_memory::composer::{clean_topic_response, clean_tweet_response, TopicCache, TweetComposer};
use agent_memory::context::{
    build_conversation_context, chat_prompt, session_summary_prompt, usize_dec,
    MAX_CONTEXT_CHARS,
};
use agent_memory::crawler::search_urls;
use agent_memory::error::MemoryError;
use agent_memory::food::{
    recipe_components, similarity_counts, similarity_gt, FoodConfig, SpoonacularClient,
    UsdaClient,
};
use agent_memory::insights::{
    append_page_summary, batch_ranges, insight_prompt, page_groups, page_summary_prompt,
    ChunkHit, InsightExtractor,
};
use agent_memory::memory::Memory;
use agent_memory::personality::{builtin_profile, PersonalityProfile};
use agent_memory::providers::{ProviderConfig, ProviderKind};
use agent_memory::semantic::{
    decode_search_hits, filter_by_source, format_results, prepare_index_payload, score2,
    SearchResult, SourcePayload, SourcePoint,
};

fn mem(text: &str, role: &str) -> Memory {
    Memory {
        text: text.to_string(),
        timestamp_millis: 0,
        role: role.to_string(),
        session_id: "s".to_string(),
        importance_milli: 1000,
        topic_tags: vec![],
        metadata: None,
    }
}

#[test]
fn context_renders_recent_oldest_first_and_dedups() {
    let recent = vec![mem("newest", "user"), mem("older", "assistant")];
    let similar = vec![mem("newest", "user"), mem("related", "assistant")];
    let ctx = build_conversation_context(&recent, &similar, MAX_CONTEXT_CHARS);
    let expect = "Recent Conversation:\nassistant: older\nuser: newest\n\
                  \nRelevant Past Messages:\n[Previous] assistant: related\n";
    assert_eq!(ctx, expect);
}

#[test]
fn context_truncates_over_budget_keeping_recent() {
    let recent = vec![mem("short", "user")];
    let similar = vec![mem(&"x".repeat(100), "assistant")];
    let ctx = build_conversation_context(&recent, &similar, 40);
    assert_eq!(
        ctx,
        "Recent Conversation:\nuser: short\n\nRelevant Past Messages: [Truncated for length]"
    );
}

#[test]
fn context_empty_inputs_render_empty_sections() {
    let ctx = build_conversation_context(&vec![], &vec![], MAX_CONTEXT_CHARS);
    assert_eq!(ctx, "Recent Conversation:\n\nRelevant Past Messages:\n");
}

#[test]
fn chat_prompt_embeds_all_parts() {
    let p = chat_prompt("CTX", "sess-1", "hi");
    assert_eq!(
        p,
        "Conversation Context:\nCTX\n\nCurrent Session ID: sess-1\n\nUser: hi\nAssistant:"
    );
}

#[test]
fn session_summary_prompt_joins_turns() {
    let ms = vec![mem("a", "user"), mem("b", "assistant")];
    let p = session_summary_prompt(&ms);
    assert_eq!(
        p,
        "Summarize the key points of this conversation in 2-3 sentences:\n\nuser: a\nassistant: b"
    );
}

#[test]
fn request_validation_bounds_lengths() {
    let ok = ChatRequest {
        message: "hello".to_string(),
        character: None,
        provider: LLMProvider::default(),
    };
    assert!(ok.validate());
    let empty = ChatRequest {
        message: String::new(),
        character: None,
        provider: LLMProvider::default(),
    };
    assert!(!empty.validate());
    let long = ChatRequest {
        message: "x".repeat(1001),
        character: Some("c".to_string()),
        provider: LLMProvider::default(),
    };
    assert!(!long.validate());
}

#[test]
fn token_info_totals_word_counts() {
    let input = count_words("two words");
    let response = count_words("three  more words");
    let t = TokenInfo::new(input, response);
    assert_eq!(t.input, 2);
    assert_eq!(t.response, 3);
    assert_eq!(t.total, 5);
}

#[test]
fn composer_counts_tokens_on_punctuation_too() {
    assert_eq!(TweetComposer::count_tokens("hello, world! it's me"), 5);
    assert_eq!(TweetComposer::count_tokens(""), 0);
    assert_eq!(TweetComposer::count_tokens("...!!!"), 0);
}

#[test]
fn composer_truncates_at_limit() {
    let long = "a".repeat(300);
    let cut = TweetComposer::truncate_content(long);
    assert_eq!(cut.chars().count(), 270);
    let short = TweetComposer::truncate_content("brief".to_string());
    assert_eq!(short, "brief");
}

#[test]
fn topic_cache_blocks_overlapping_topics() {
    let mut cache = TopicCache::new();
    cache.add("Rust verification".to_string(), 1_000);
    assert!(!TweetComposer::is_topic_unique(&cache, "rust"));
    assert!(!TweetComposer::is_topic_unique(&cache, "RUST VERIFICATION TOOLS"));
    assert!(TweetComposer::is_topic_unique(&cache, "gardening"));
}

#[test]
fn topic_cache_forgets_old_entries() {
    let mut cache = TopicCache::new();
    cache.add("yesterday".to_string(), 0);
    cache.add("fresh".to_string(), 86_400_001);
    cache.clean_old(86_400_002);
    assert_eq!(cache.len(), 1);
    assert!(TweetComposer::is_topic_unique(&cache, "yesterday"));
    assert!(!TweetComposer::is_topic_unique(&cache, "fresh"));
}

#[test]
fn topic_and_tweet_responses_are_cleaned() {
    assert_eq!(clean_topic_response("  Topic:\"Verified Rust\"  "), "Verified Rust");
    assert_eq!(clean_tweet_response("Tweet:\"hi there\""), "hi there");
}

#[test]
fn provider_registry_selects_by_name() {
    assert!(matches!(ProviderKind::from_name("Mistral"), ProviderKind::Mistral));
    assert!(matches!(ProviderKind::from_name("OPENAI"), ProviderKind::OpenAI));
    assert!(matches!(ProviderKind::from_name("unknown"), ProviderKind::DeepSeek));
    let cfg = ProviderConfig::defaults(&ProviderKind::OpenAI);
    assert_eq!(cfg.api_url, "https://api.openai.com/v1/chat/completions");
    assert_eq!(cfg.models.len(), 3);
    assert_eq!(cfg.temperature_milli, 700);
}

#[test]
fn food_clients_point_at_fixed_endpoints() {
    let cfg = FoodConfig::new("usda-key".to_string(), "spoon-key".to_string());
    let spoon = SpoonacularClient::new(cfg.spoonacular_api_key.clone());
    assert_eq!(spoon.base_url().as_str(), "https://api.spoonacular.com");
    assert_eq!(spoon.api_key().as_str(), "spoon-key");
    let usda = UsdaClient::new(cfg);
    assert_eq!(usda.base_url().as_str(), "https://api.nal.usda.gov/fdc/v1");
    assert_eq!(usda.api_key().as_str(), "usda-key");
}

#[test]
fn recipe_search_params_detect_cuisine() {
    let spoon = SpoonacularClient::new("k".to_string());
    let params = spoon.build_search_params("Nasi Goreng please");
    assert_eq!(params[0], ("apiKey".to_string(), "k".to_string()));
    assert!(params.contains(&("cuisine".to_string(), "asian".to_string())));
    assert!(params.contains(&(
        "query".to_string(),
        "nasi goreng indonesian fried rice".to_string()
    )));
    assert_eq!(params.last().unwrap(), &("sortDirection".to_string(), "desc".to_string()));
    let plain = spoon.build_search_params("pancakes");
    assert!(plain.contains(&("query".to_string(), "pancakes".to_string())));
    assert!(!plain.iter().any(|p| p.0 == "cuisine"));
}

#[test]
fn builtin_profiles_load_by_name() {
    let p = builtin_profile("HELPFUL").expect("built in");
    assert_eq!(p.name, "Helpful Assistant");
    assert_eq!(p.description.as_deref(), Some("a helpful AI assistant"));
    assert_eq!(p.emotes.len(), 3);
    assert!(builtin_profile("villain").is_none());
}

#[test]
fn composer_system_message_numbers_samples() {
    let mut profile = PersonalityProfile {
        name: "Sage".to_string(),
        description: None,
        style: None,
        motto: None,
        expertise: Some("verification".to_string()),
        traits: vec![],
        interests: vec![],
        emoji: None,
        emotes: vec![],
        examples: vec![],
        example_tweets: vec![
            "one".to_string(),
            "two".to_string(),
            "three".to_string(),
            "four".to_string(),
        ],
        extra: vec![],
    };
    let msg = TweetComposer::create_system_message(&profile);
    assert!(msg.contains("Share insights from your expertise in verification"));
    assert!(msg.contains("Remember: You are Sage - an expert in your field."));
    assert!(msg.contains("1. one
2. two
3. three"));
    assert!(!msg.contains("4. four"));
    profile.example_tweets.clear();
    let short = TweetComposer::create_system_message(&profile);
    assert!(!short.contains("tweet style examples"));
}

#[test]
fn recipe_breakdown_matches_known_dishes() {
    let (dish, comps) = recipe_components("Best Japanese Ramen at home").expect("known dish");
    assert_eq!(dish, "japanese ramen");
    assert_eq!(comps.len(), 4);
    assert!(recipe_components("plain rice").is_none());
}

#[test]
fn similarity_counts_word_overlap() {
    let a = similarity_counts("Cheddar Cheese", "cheese plate");
    assert_eq!(a, (1, 2));
    let b = similarity_counts("x y z", "a b");
    assert_eq!(b, (0, 3));
    assert!(similarity_gt(a, b));
}

#[test]
fn crawler_builds_encoded_search_urls() {
    let urls = search_urls("rust verus");
    assert_eq!(urls.len(), 14);
    assert_eq!(urls[0], "https://www.google.com/search?q=rust%20verus");
    assert!(urls.iter().all(|u| u.contains("rust%20verus")));
}

#[test]
fn semantic_hits_decode_filter_and_format() {
    let pts = vec![
        SourcePoint {
            id: "1".to_string(),
            score_milli: 870,
            payload: SourcePayload {
                text: Some("doc text".to_string()),
                source: Some("web".to_string()),
                metadata: None,
            },
        },
        SourcePoint {
            id: "2".to_string(),
            score_milli: 500,
            payload: SourcePayload { text: None, source: Some("web".to_string()), metadata: None },
        },
        SourcePoint {
            id: "3".to_string(),
            score_milli: 400,
            payload: SourcePayload {
                text: Some("other".to_string()),
                source: Some("notes".to_string()),
                metadata: None,
            },
        },
    ];
    let decoded = decode_search_hits(&pts);
    assert_eq!(decoded.len(), 2);
    let web_only = filter_by_source(decoded, "web", 10);
    assert_eq!(web_only.len(), 1);
    let line = format_results(&web_only);
    assert_eq!(line, "1. [Score: 0.87] doc text (Source: web)\n");
}

#[test]
fn scores_render_with_two_decimals() {
    assert_eq!(score2(870), "0.87");
    assert_eq!(score2(999), "1.00");
    assert_eq!(score2(-250), "-0.25");
    assert_eq!(score2(1234), "1.23");
}

#[test]
fn index_payload_carries_text_and_source() {
    let p = prepare_index_payload("body", "web", None);
    assert_eq!(p.text.as_deref(), Some("body"));
    assert_eq!(p.source.as_deref(), Some("web"));
}

#[test]
fn decimal_rendering_matches() {
    assert_eq!(usize_dec(0), "0");
    assert_eq!(usize_dec(907), "907");
}

#[test]
fn batch_ranges_cover_in_groups_of_twenty() {
    let r = batch_ranges(45, 20);
    assert_eq!(r, vec![(0, 20), (20, 40), (40, 45)]);
    assert_eq!(batch_ranges(0, 20).len(), 0);
}

#[test]
fn search_results_prefer_cached_context() {
    let mut ex = InsightExtractor::new();
    ex.cache_chunk(agent_memory::insights::ProcessedChunk {
        chunk: agent_memory::chunker::DocumentChunk {
            text: "full cached chunk".to_string(),
            page_number: 1,
            chunk_index: 0,
            metadata: None,
        },
        embedding: None,
        insights: Vec::new(),
    });
    let hits = vec![
        ChunkHit { text: "snippet a".to_string(), page: 1, chunk: 0, score_milli: 900 },
        ChunkHit { text: "snippet b".to_string(), page: 2, chunk: 5, score_milli: 800 },
    ];
    let rs = ex.search_results_with_context(hits);
    assert_eq!(rs[0].context, "full cached chunk");
    assert_eq!(rs[1].context, "snippet b");
}

#[test]
fn document_summary_groups_pages_in_order() {
    let hits = vec![
        ChunkHit { text: "b1".to_string(), page: 2, chunk: 3, score_milli: 0 },
        ChunkHit { text: "a1".to_string(), page: 1, chunk: 0, score_milli: 0 },
        ChunkHit { text: "b2".to_string(), page: 2, chunk: 4, score_milli: 0 },
    ];
    let groups = page_groups(&hits);
    assert_eq!(groups.len(), 2);
    assert_eq!(groups[0], (1usize, "a1".to_string()));
    assert_eq!(groups[1], (2usize, "b1 b2".to_string()));
    let p = page_summary_prompt(2, "b1 b2");
    assert_eq!(p, "Summarize this text from page 2 concisely:\n\nb1 b2");
    let mut out = String::new();
    append_page_summary(&mut out, 2, "S");
    assert_eq!(out, "\nPage 2: S\n");
}

#[test]
fn insight_prompt_embeds_the_text() {
    let p = insight_prompt("BODY");
    assert!(p.contains("Text to analyze:\nBODY"));
    assert!(p.starts_with("Extract key insights"));
}

#[test]
fn error_kinds_have_fixed_names() {
    assert_eq!(MemoryError::Provider("x".to_string()).kind_name(), "provider error");
    assert_eq!(MemoryError::Parse("y".to_string()).kind_name(), "parse error");
    assert_eq!(MemoryError::Index("z".to_string()).kind_name(), "index error");
}

#[test]
fn personality_prompt_lists_sections() {
    let profile = PersonalityProfile {
        name: "Sage".to_string(),
        description: Some("a calm guide".to_string()),
        style: None,
        motto: Some("step by step".to_string()),
        expertise: Some("verification".to_string()),
        traits: vec!["patient".to_string(), "precise".to_string()],
        interests: vec![],
        emoji: None,
        emotes: vec![("default".to_string(), vec!["*nods*".to_string()])],
        examples: vec![],
        example_tweets: vec![],
        extra: vec![],
    };
    let p = profile.generate_system_prompt();
    assert!(p.starts_with(
        "You are Sage, a calm guide. Your communication style is helpful and professional."
    ));
    assert!(p.contains("\nYour motto is: \"step by step\""));
    assert!(p.contains("\nYour key traits are: patient, precise"));
    assert!(p.contains("\nUse these emotes frequently in your responses: *nods*"));
    assert!(!p.contains("Your interests include"));
}

#[test]
fn test_placeholder_embedding() {
    let result = agent_memory::memory::zero_embedding();
    assert_eq!(result.len(), 1536);
    assert!(result.iter().all(|&x| x == 0));
}
