use fabryk_graph::appstate::{AppState, ConfigError, ConfigProvider, FabrykCli, FindOptions, MAX_WALK_LEVELS};
use std::path::PathBuf;
use std::sync::Arc;

#[derive(Clone, Debug)]
struct TestConfig {
    name: String,
    base: PathBuf,
}

impl ConfigProvider for TestConfig {
    fn project_name(&self) -> &str {
        &self.name
    }

    fn base_path(&self) -> Result<PathBuf, ConfigError> {
        Ok(self.base.clone())
    }

    fn content_path(&self, content_type: &str) -> Result<PathBuf, ConfigError> {
        Ok(self.base.join(content_type))
    }
}

fn test_config() -> TestConfig {
    TestConfig {
        name: "test-project".into(),
        base: PathBuf::from("/tmp/test"),
    }
}

#[test]
fn test_app_state_new() {
    let config = test_config();
    let state = AppState::new(config);
    assert_eq!(state.config().project_name(), "test-project");
}

#[test]
fn test_app_state_from_arc() {
    let config = Arc::new(test_config());
    let state = AppState::from_arc(config);
    assert_eq!(state.config().project_name(), "test-project");
}

#[test]
fn test_app_state_config_arc() {
    let config = test_config();
    let state = AppState::new(config);

    let arc1 = state.config_arc();
    let arc2 = state.config_arc();

    assert!(Arc::ptr_eq(&arc1, &arc2));
}

#[test]
fn test_app_state_project_name() {
    let config = test_config();
    let state = AppState::new(config);
    assert_eq!(state.project_name(), "test-project");
}

#[test]
fn test_app_state_clone() {
    let config = test_config();
    let state1 = AppState::new(config);
    let state2 = state1.clone();

    assert_eq!(state1.project_name(), state2.project_name());
    assert!(Arc::ptr_eq(&state1.config_arc(), &state2.config_arc()));
}

#[test]
fn test_app_state_clone_independence() {
    let config = test_config();
    let state1 = AppState::new(config);
    let state2 = state1.clone();

    drop(state1);
    assert_eq!(state2.project_name(), "test-project");
}

#[test]
fn test_app_state_debug() {
    let config = test_config();
    let state = AppState::new(config);
    let debug_str = format!("{:?}", state);
    assert!(debug_str.contains("AppState"));
}

#[test]
fn test_app_state_content_path() {
    let config = test_config();
    let state = AppState::new(config);

    let concepts_path = state.config().content_path("concepts").unwrap();
    assert_eq!(concepts_path, PathBuf::from("/tmp/test/concepts"));

    let sources_path = state.config().content_path("sources").unwrap();
    assert_eq!(sources_path, PathBuf::from("/tmp/test/sources"));
}

#[test]
fn test_app_state_arc_count() {
    let config = test_config();
    let state = AppState::new(config);

    let arc1 = state.config_arc();
    let arc2 = state.config_arc();

    assert_eq!(Arc::strong_count(&arc1), 3);

    drop(arc2);
    assert_eq!(Arc::strong_count(&arc1), 2);
}

#[test]
fn test_config_provider_project_name() {
    let config = TestConfig {
        name: "test-project".into(),
        base: PathBuf::from("/tmp/test"),
    };
    assert_eq!(config.project_name(), "test-project");
}

#[test]
fn test_config_provider_content_path() {
    let config = TestConfig {
        name: "test".into(),
        base: PathBuf::from("/data"),
    };
    let path = config.content_path("concepts").unwrap();
    assert_eq!(path, PathBuf::from("/data/concepts"));
}

#[test]
fn test_config_provider_content_path_multiple() {
    let config = TestConfig {
        name: "test".into(),
        base: PathBuf::from("/project"),
    };

    assert_eq!(
        config.content_path("sources").unwrap(),
        PathBuf::from("/project/sources")
    );
    assert_eq!(
        config.content_path("guides").unwrap(),
        PathBuf::from("/project/guides")
    );
    assert_eq!(
        config.content_path("graphs").unwrap(),
        PathBuf::from("/project/graphs")
    );
}

#[test]
fn test_config_provider_cache_path_default() {
    let config = TestConfig {
        name: "test".into(),
        base: PathBuf::from("/project"),
    };
    assert_eq!(
        config.cache_path("graph").unwrap(),
        PathBuf::from("/project/.cache/graph")
    );
    assert_eq!(
        config.cache_path("fts").unwrap(),
        PathBuf::from("/project/.cache/fts")
    );
    assert_eq!(
        config.cache_path("vector").unwrap(),
        PathBuf::from("/project/.cache/vector")
    );
}

#[test]
fn test_config_provider_is_clone() {
    let config = TestConfig {
        name: "test".into(),
        base: PathBuf::from("/data"),
    };
    let cloned = config.clone();
    assert_eq!(config.project_name(), cloned.project_name());
}

#[test]
fn test_max_walk_levels_value() {
    assert_eq!(MAX_WALK_LEVELS, 10);
}

#[derive(Clone, Debug)]
struct CliConfig {
    base: PathBuf,
}

impl ConfigProvider for CliConfig {
    fn project_name(&self) -> &str {
        "test-app"
    }

    fn base_path(&self) -> Result<PathBuf, ConfigError> {
        Ok(self.base.clone())
    }

    fn content_path(&self, content_type: &str) -> Result<PathBuf, ConfigError> {
        Ok(self.base.join(content_type))
    }
}

fn cli_config() -> CliConfig {
    CliConfig {
        base: PathBuf::from("/tmp/test"),
    }
}

#[test]
fn test_fabryk_cli_new() {
    let cli = FabrykCli::new("my-app", cli_config());
    assert_eq!(cli.name(), "my-app");
    assert_eq!(cli.config().project_name(), "test-app");
}

#[test]
fn test_fabryk_cli_with_version() {
    let cli = FabrykCli::new("my-app", cli_config()).with_version("1.2.3");
    assert_eq!(cli.version(), "1.2.3");
}

#[test]
fn find_options_builders() {
    let opts = FindOptions::markdown().with_patterns(vec!["{id}.md", "{id}/index.md"]).with_max_depth(3);
    assert_eq!(opts.extension, Some("md"));
    assert_eq!(opts.max_depth, Some(3));
    assert_eq!(opts.patterns, vec!["{id}.md".to_string(), "{id}/index.md".to_string()]);
    let plain = FindOptions::default();
    assert!(plain.extension.is_none());
    assert_eq!(FabrykCli::new("x", cli_config()).version(), "0.1.0");
}
