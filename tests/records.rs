use fabryk_graph::hashing::content_hash;
use fabryk_graph::config::{BuildOptions, ContentConfig, FabrykConfig, QueryOptions};
use fabryk_graph::llm::{Message, Role, TokenUsage};
use fabryk_graph::vector::{is_index_fresh, IndexMetadata, MockEmbeddingProvider, VectorDocument};

#[test]
fn test_message_constructors() {
    let user_msg = Message::user("Hello");
    assert_eq!(user_msg.role, Role::User);
    assert_eq!(user_msg.content, "Hello");

    let asst_msg = Message::assistant("Hi there");
    assert_eq!(asst_msg.role, Role::Assistant);
    assert_eq!(asst_msg.content, "Hi there");
}

#[test]
fn test_token_usage_total() {
    let usage = TokenUsage {
        input: 100,
        output: 200,
    };
    assert_eq!(usage.total(), 300);
}

#[test]
fn test_vector_document_new() {
    let doc = VectorDocument::new("doc-1", "Hello world");
    assert_eq!(doc.id, "doc-1");
    assert_eq!(doc.text, "Hello world");
    assert!(doc.category.is_none());
    assert!(doc.metadata.is_empty());
}

#[test]
fn test_vector_document_with_category() {
    let doc = VectorDocument::new("doc-1", "text").with_category("harmony");
    assert_eq!(doc.category, Some("harmony".to_string()));
}

#[test]
fn test_vector_document_with_metadata() {
    let doc = VectorDocument::new("doc-1", "text")
        .with_metadata("author", "test")
        .with_metadata("tier", "beginner");

    assert_eq!(doc.metadata.len(), 2);
    assert_eq!(doc.metadata.get("author").unwrap(), "test");
    assert_eq!(doc.metadata.get("tier").unwrap(), "beginner");
}

#[test]
fn test_mock_provider_creation() {
    let provider = MockEmbeddingProvider::new(384);
    assert_eq!(provider.dimension(), 384);
    assert_eq!(provider.name(), "mock");
}

#[test]
fn test_fabryk_config_default() {
    let config = FabrykConfig::default();
    assert_eq!(config.project_name, "fabryk");
    assert!(config.base_path.is_none());
    assert!(config.content.path.is_none());
    assert!(config.graph.output_path.is_none());
    assert_eq!(config.server.port, 3000);
    assert_eq!(config.server.host, "127.0.0.1");
}

#[test]
fn test_fabryk_config_provider_project_name() {
    let config = FabrykConfig {
        project_name: "test-project".into(),
        ..Default::default()
    };
    assert_eq!(config.project_name(), "test-project");
}

#[test]
fn test_fabryk_config_provider_content_path() {
    let config = FabrykConfig {
        base_path: Some("/project".into()),
        ..Default::default()
    };
    let path = config.content_path("concepts").unwrap();
    assert_eq!(path, "/project/concepts");
}

#[test]
fn test_fabryk_config_provider_content_path_explicit() {
    let config = FabrykConfig {
        content: ContentConfig {
            path: Some("/custom/content".into()),
        },
        ..Default::default()
    };
    let path = config.content_path("anything").unwrap();
    assert_eq!(path, "/custom/content");
}

#[test]
fn test_fabryk_config_is_clone() {
    let config = FabrykConfig::default();
    let cloned = config.clone();
    assert_eq!(config.project_name, cloned.project_name);
}

#[test]
fn test_build_options_default() {
    let options = BuildOptions {
        output: None,
        dry_run: true,
    };
    assert!(options.dry_run);
    assert!(options.output.is_none());
}

#[test]
fn test_build_options_with_output() {
    let options = BuildOptions {
        output: Some("/tmp/graph.json".to_string()),
        dry_run: false,
    };
    assert!(!options.dry_run);
    assert_eq!(options.output.unwrap(), "/tmp/graph.json");
}

// Own tests.

#[test]
fn index_freshness() {
    let meta = IndexMetadata {
        content_hash: "abc".to_string(),
        document_count: 1,
        embedding_dimension: 8,
        built_at: "now".to_string(),
        provider: "mock".to_string(),
        model: "m".to_string(),
    };
    let some = Some(meta);
    assert!(is_index_fresh(&some, "abc"));
    assert!(!is_index_fresh(&some, "abd"));
    assert!(!is_index_fresh(&None, "abc"));
}

#[test]
fn metadata_replaces_value() {
    let doc = VectorDocument::new("d", "t").with_metadata("k", "1").with_metadata("k", "2");
    assert_eq!(doc.metadata.len(), 1);
    assert_eq!(doc.metadata.get("k").unwrap(), "2");
    assert!(doc.metadata.get("z").is_none());
}

#[test]
fn content_path_without_base_is_none() {
    let config = FabrykConfig::default();
    assert!(config.content_path("x").is_none());
    let slash = FabrykConfig { base_path: Some("/p/".into()), ..Default::default() };
    assert_eq!(slash.content_path("x").unwrap(), "/p/x");
}

#[test]
fn query_options_hold_fields() {
    let q = QueryOptions { id: "a".to_string(), query_type: "path".to_string(), to: Some("b".to_string()) };
    assert_eq!(q.to.as_deref(), Some("b"));
}

#[test]
fn content_hash_is_hex_digest_of_concatenation() {
    let h1 = content_hash(&vec![b"content a".to_vec(), b"content b".to_vec()]);
    let h2 = content_hash(&vec![b"content a".to_vec(), b"content b".to_vec()]);
    let joined = content_hash(&vec![b"content acontent b".to_vec()]);
    let other = content_hash(&vec![b"content a".to_vec(), b"different".to_vec()]);
    assert_eq!(h1.len(), 64);
    assert!(h1.chars().all(|c| c.is_ascii_hexdigit() && !c.is_ascii_uppercase()));
    assert_eq!(h1, h2);
    assert_eq!(h1, joined);
    assert_ne!(h1, other);
    assert_ne!(h1, "content acontent b");
}
