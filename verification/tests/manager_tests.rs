use nucleus_rag::ai_client::{fold_reply, AiClient, ReplyChunk};
use nucleus_rag::defaults::{config_json_path, parse_config_json, ConfigParseError, LlmConfig};
use nucleus_rag::embedder::{BagOfCharsProvider, Embedder, EmbeddingProvider};
use nucleus_rag::errors::{EmbedderError, RagError};
use nucleus_rag::indexer::IndexedFile;
use nucleus_rag::manager::Manager;
use nucleus_rag::mistral::{ChatRole, MistralRsProvider, ModelSource, role_of};
use nucleus_rag::web::{Permission, WebSearchParams, WebSearchPlugin};

fn test_manager(dim: usize, chunk_size: usize, overlap: usize, top_k: usize) -> Manager<BagOfCharsProvider> {
    let embedder = Embedder::new(BagOfCharsProvider::new(dim), "bag-of-chars");
    Manager::new(embedder, dim, chunk_size, overlap, top_k).unwrap()
}

#[test]
fn manager_rejects_bad_chunking_parameters() {
    let embedder = Embedder::new(BagOfCharsProvider::new(4), "bag-of-chars");
    let r = Manager::new(embedder, 4, 10, 10, 3);
    assert!(matches!(r, Err(RagError::Config)));
}

#[test]
fn add_knowledge_counts_one_per_add_and_clear_empties() {
    let mut manager = test_manager(4, 100, 10, 3);
    assert_eq!(manager.count(), 0);
    manager.add_knowledge("the moon is made of rock", "astronomy").unwrap();
    assert_eq!(manager.count(), 1);
    manager.add_knowledge("the sea is salty", "geography").unwrap();
    assert_eq!(manager.count(), 2);
    manager.clear();
    assert_eq!(manager.count(), 0);
}

#[test]
fn index_files_counts_files_not_chunks() {
    // Chunk size larger than each file: one chunk per file, two in total.
    let mut manager = test_manager(4, 1000, 100, 3);
    let files = vec![
        IndexedFile { path: "proj/a.rs".to_string(), content: "fn a() {}".to_string() },
        IndexedFile { path: "proj/b.md".to_string(), content: "# notes".to_string() },
    ];
    let indexed = manager.index_files(&files).unwrap();
    assert_eq!(indexed, 2);
    assert_eq!(manager.count(), 2);
}

#[test]
fn index_files_splits_large_files_into_chunks() {
    let mut manager = test_manager(4, 4, 1, 3);
    // 10 characters, window 4, step 3: windows at 0, 3, 6 -> 3 chunks.
    let files = vec![IndexedFile { path: "big.txt".to_string(), content: "abcdefghij".to_string() }];
    let indexed = manager.index_files(&files).unwrap();
    assert_eq!(indexed, 1);
    assert_eq!(manager.count(), 3);
}

/// A provider standing for an unreachable embedding service.
struct UnreachableProvider;

impl EmbeddingProvider for UnreachableProvider {
    fn embed(&self, _model: &str, _text: &str) -> Result<Vec<i16>, EmbedderError> {
        Err(EmbedderError::Unavailable)
    }
}

#[test]
fn index_files_with_no_files_succeeds_with_zero() {
    let mut manager = test_manager(4, 100, 10, 3);
    assert_eq!(manager.index_files(&Vec::new()).unwrap(), 0);
    // succeeds even when the embedding service is down: no call is made
    let embedder = Embedder::new(UnreachableProvider, "down");
    let mut manager = Manager::new(embedder, 4, 100, 10, 3).unwrap();
    assert_eq!(manager.index_files(&Vec::new()).unwrap(), 0);
}

#[test]
fn index_files_failure_names_the_offending_file() {
    let embedder = Embedder::new(UnreachableProvider, "down");
    let mut manager = Manager::new(embedder, 4, 100, 10, 3).unwrap();
    let files = vec![IndexedFile { path: "proj/a.rs".to_string(), content: "fn a() {}".to_string() }];
    match manager.index_files(&files) {
        Err(RagError::FileEmbedding { path, error }) => {
            assert_eq!(path, "proj/a.rs");
            assert_eq!(error, EmbedderError::Unavailable);
        }
        other => panic!("expected a file-embedding error, got {other:?}"),
    }
    // nothing was stored before the failure
    assert_eq!(manager.count(), 0);
}

#[test]
fn add_knowledge_surfaces_embedding_failure() {
    let embedder = Embedder::new(UnreachableProvider, "down");
    let mut manager = Manager::new(embedder, 4, 100, 10, 3).unwrap();
    let r = manager.add_knowledge("text", "src");
    assert!(matches!(r, Err(RagError::Embedder(EmbedderError::Unavailable))));
    assert_eq!(manager.count(), 0);
}

#[test]
fn retrieve_context_on_empty_store_is_empty() {
    let manager = test_manager(4, 100, 10, 3);
    assert_eq!(manager.retrieve_context("anything").unwrap(), "");
}

#[test]
fn retrieve_context_numbers_ranked_entries() {
    let mut manager = test_manager(4, 100, 10, 2);
    manager.add_knowledge("alpha", "a").unwrap();
    manager.add_knowledge("beta", "b").unwrap();
    manager.add_knowledge("gamma", "c").unwrap();

    let context = manager.retrieve_context("alpha").unwrap();
    assert!(context.starts_with("\n\nRelevant context from your knowledge base:\n"));
    // top_k = 2 of 3 documents: exactly two numbered entries
    assert!(context.contains("\n[1] "));
    assert!(context.contains("\n[2] "));
    assert!(!context.contains("\n[3] "));
}

#[test]
fn retrieve_context_finds_the_matching_document_first() {
    let mut manager = test_manager(8, 100, 10, 3);
    manager.add_knowledge("zzzz qqqq", "noise").unwrap();
    manager.add_knowledge("rust is a language", "docs").unwrap();

    // The provider is deterministic, so the identical text embeds
    // identically and must rank first with the highest score.
    let context = manager.retrieve_context("rust is a language").unwrap();
    assert!(context.contains("\n[1] rust is a language\n"));
}

fn reply(kind: &str, content: &str, error: Option<&str>) -> ReplyChunk {
    ReplyChunk {
        kind: kind.to_string(),
        content: content.to_string(),
        error: error.map(str::to_string),
    }
}

#[test]
fn fold_reply_concatenates_until_done() {
    let chunks = vec![reply("chunk", "he", None), reply("chunk", "llo", None), reply("done", "", None)];
    assert_eq!(fold_reply(&chunks), Ok("hello".to_string()));

    // a final content on the done chunk replaces the gathered text
    let chunks = vec![reply("chunk", "partial", None), reply("done", "final", None)];
    assert_eq!(fold_reply(&chunks), Ok("final".to_string()));

    // unknown kinds are skipped
    let chunks = vec![reply("ping", "x", None), reply("chunk", "ok", None)];
    assert_eq!(fold_reply(&chunks), Ok("ok".to_string()));
}

#[test]
fn fold_reply_surfaces_errors() {
    let chunks = vec![reply("chunk", "x", None), reply("error", "", Some("boom"))];
    assert_eq!(fold_reply(&chunks), Err("boom".to_string()));
    let chunks = vec![reply("error", "", None)];
    assert_eq!(fold_reply(&chunks), Err("Unknown error".to_string()));
}

#[test]
fn ai_client_builds_the_protocol_requests() {
    let r = AiClient::chat("hello", Some("/work"));
    assert_eq!(r.kind, "chat");
    assert_eq!(r.content, "hello");
    assert_eq!(r.pwd, Some("/work".to_string()));

    let r = AiClient::edit("fix it", None);
    assert_eq!(r.kind, "edit");
    assert_eq!(r.pwd, None);

    let r = AiClient::add_knowledge("a fact");
    assert_eq!(r.kind, "add");
    assert_eq!(r.content, "a fact");

    let r = AiClient::index_directory("/src");
    assert_eq!(r.kind, "index");
    assert_eq!(r.content, "/src");

    let r = AiClient::stats();
    assert_eq!(r.kind, "stats");
    assert_eq!(r.content, "");
}

#[test]
fn test_web_search_execute() {
    let plugin = WebSearchPlugin::new();
    let input = WebSearchParams { query: "Rust programming".to_string(), max_results: Some(1) };

    let result = plugin.execute(input);
    println!("Web search results:\n{}", result.content);
    assert_eq!(result.content, "Web search results");
}

#[test]
fn web_search_plugin_descriptor() {
    let plugin = WebSearchPlugin::new();
    assert_eq!(plugin.name(), "web_search");
    assert_eq!(plugin.description(), "Search the web using DuckDuckGo");
    assert_eq!(plugin.required_permission(), Permission::ReadOnly);
    assert!(plugin.parameter_schema().contains("max_results"));
}

#[test]
fn model_names_resolve_to_local_files_or_the_hub() {
    let p = MistralRsProvider::new("models/qwen.gguf");
    match p.model_source(true) {
        ModelSource::LocalGguf { dir, filename } => {
            assert_eq!(dir, "models");
            assert_eq!(filename, "qwen.gguf");
        }
        _ => panic!("expected a local file"),
    }
    // the same name without a file on disk falls back to the hub
    match p.model_source(false) {
        ModelSource::HuggingFace { id } => assert_eq!(id, "models/qwen.gguf"),
        _ => panic!("expected a hub id"),
    }
    let p = MistralRsProvider::new("Qwen/Qwen3-0.6B");
    match p.model_source(false) {
        ModelSource::HuggingFace { id } => assert_eq!(id, "Qwen/Qwen3-0.6B"),
        _ => panic!("expected a hub id"),
    }
}

#[test]
fn mistral_provider_does_not_embed() {
    let p = MistralRsProvider::new("any");
    assert!(p.embed("text", "model").is_err());
}

#[test]
fn chat_roles_map_with_user_fallback() {
    assert_eq!(role_of("system"), ChatRole::System);
    assert_eq!(role_of("assistant"), ChatRole::Assistant);
    assert_eq!(role_of("user"), ChatRole::User);
    assert_eq!(role_of("tool"), ChatRole::User);
}

#[test]
fn parse_config_json_reads_max_position_embeddings() {
    let mut config = LlmConfig { context_length: 2048 };
    parse_config_json("{\"max_position_embeddings\": 8192}", &mut config).unwrap();
    assert_eq!(config.context_length, 8192);

    // a missing field changes nothing
    let mut config = LlmConfig { context_length: 2048 };
    parse_config_json("{\"other\": 1}", &mut config).unwrap();
    assert_eq!(config.context_length, 2048);

    // invalid JSON is an error and changes nothing
    let mut config = LlmConfig { context_length: 2048 };
    let r = parse_config_json("not json", &mut config);
    assert_eq!(r, Err(ConfigParseError::Invalid));
    assert_eq!(config.context_length, 2048);
}

#[test]
fn config_json_path_sits_beside_a_file_or_inside_a_directory() {
    assert_eq!(config_json_path("models", false), Some("models/config.json".to_string()));
    assert_eq!(
        config_json_path("models/qwen.gguf", true),
        Some("models/config.json".to_string())
    );
    assert_eq!(config_json_path("qwen.gguf", true), None);
}
