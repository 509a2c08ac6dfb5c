//! Shared application state, generic over the configuration that a domain
//! supplies, and path helpers.

use vstd::prelude::*;
use std::path::PathBuf;
use std::sync::Arc;

verus! {

#[verifier::external_type_specification]
#[verifier::external_body]
pub struct ExPathBuf(std::path::PathBuf);

/// Largest number of parent directories walked when searching upwards for
/// a marker file.
pub const MAX_WALK_LEVELS: usize = 10;

/// A configuration that cannot supply a path.
#[derive(Debug)]
pub enum ConfigError {
    /// The configuration lacks something; holds a message.
    Config(String),
}

/// Relies on `Path::join`: the path extended by one component.
#[verifier::external_body]
pub(crate) fn path_join(base: &PathBuf, part: &str) -> PathBuf {
    base.join(part)
}

/// The configuration a domain provides: its name and where its data
/// lives.
pub trait ConfigProvider: Clone {
    /// The project name.
    fn project_name(&self) -> &str;

    /// Root directory of all project data.
    fn base_path(&self) -> Result<PathBuf, ConfigError>;

    /// Directory of one kind of content, such as `concepts`.
    fn content_path(&self, content_type: &str) -> Result<PathBuf, ConfigError>;

    /// Directory of one kind of cache: `{base}/.cache/{cache_type}` unless
    /// the domain says otherwise.
    fn cache_path(&self, cache_type: &str) -> Result<PathBuf, ConfigError> {
        match self.base_path() {
            Ok(base) => {
                let cache = path_join(&base, ".cache");
                Ok(path_join(&cache, cache_type))
            },
            Err(e) => Err(e),
        }
    }
}

/// State shared by the handlers of an application: its configuration,
/// behind a reference-counted handle so that copies are cheap.
#[derive(Debug)]
pub struct AppState<C: ConfigProvider> {
    config: Arc<C>,
}

impl<C: ConfigProvider> AppState<C> {
    /// The configuration this state holds.
    pub closed spec fn spec_config(&self) -> C {
        *self.config
    }

    /// State holding `config`.
    pub fn new(config: C) -> (r: AppState<C>)
        ensures
            r.spec_config() == config,
    {
        AppState { config: Arc::new(config) }
    }

    /// State holding a configuration that is already shared.
    pub fn from_arc(config: Arc<C>) -> (r: AppState<C>)
        ensures
            r.spec_config() == *config,
    {
        AppState { config }
    }

    /// The configuration.
    pub fn config(&self) -> (r: &C)
        ensures
            *r == self.spec_config(),
    {
        &*self.config
    }

    /// A shared handle to the configuration.
    pub fn config_arc(&self) -> (r: Arc<C>)
        ensures
            *r == self.spec_config(),
    {
        Arc::clone(&self.config)
    }

    /// The configuration's project name.
    pub fn project_name(&self) -> &str {
        self.config.project_name()
    }
}

impl<C: ConfigProvider> Clone for AppState<C> {
    fn clone(&self) -> (r: Self)
        ensures
            r.spec_config() == self.spec_config(),
    {
        AppState { config: Arc::clone(&self.config) }
    }
}

} // verus!

verus! {

/// Options for finding content files.
#[derive(Debug)]
pub struct FindOptions {
    /// File extension to match, without the dot.
    pub extension: Option<&'static str>,
    /// Deepest directory level searched; unlimited when absent.
    pub max_depth: Option<usize>,
    /// File-name patterns tried first, with `{id}` standing for the id.
    pub patterns: Vec<String>,
}

impl Default for FindOptions {
    fn default() -> (r: FindOptions)
        ensures
            r.extension is None,
            r.max_depth is None,
            r.patterns@.len() == 0,
    {
        FindOptions { extension: None, max_depth: None, patterns: Vec::new() }
    }
}

impl FindOptions {
    /// Options that match markdown files at any depth, with no patterns.
    pub fn markdown() -> (r: FindOptions)
        ensures
            r.extension matches Some(e) && e@ == "md"@,
            r.max_depth is None,
            r.patterns@.len() == 0,
    {
        FindOptions { extension: Some("md"), max_depth: None, patterns: Vec::new() }
    }

    /// The same options with these patterns.
    pub fn with_patterns(self, patterns: Vec<&str>) -> (r: FindOptions)
        ensures
            r.extension == self.extension,
            r.max_depth == self.max_depth,
            r.patterns@.len() == patterns@.len(),
            forall|i: int| 0 <= i < patterns@.len() ==> (#[trigger] r.patterns@[i])@ == patterns@[i]@,
    {
        let mut owned: Vec<String> = Vec::new();
        let mut i: usize = 0;
        while i < patterns.len()
            invariant
                i <= patterns@.len(),
                owned@.len() == i,
                forall|j: int| 0 <= j < i ==> (#[trigger] owned@[j])@ == patterns@[j]@,
            decreases patterns.len() - i,
        {
            owned.push(patterns[i].to_owned());
            i = i + 1;
        }
        FindOptions { patterns: owned, ..self }
    }

    /// The same options with a depth limit.
    pub fn with_max_depth(self, depth: usize) -> (r: FindOptions)
        ensures
            r.extension == self.extension,
            r.max_depth == Some(depth),
            r.patterns == self.patterns,
    {
        FindOptions { max_depth: Some(depth), ..self }
    }
}

/// A discovered file.
#[derive(Debug)]
pub struct FileInfo {
    /// Full path of the file.
    pub path: PathBuf,
    /// File name without its extension.
    pub stem: String,
    /// Path relative to the search base.
    pub relative_path: PathBuf,
}

/// Version reported by the application unless overridden.
pub const APP_VERSION: &'static str = "0.1.0";

/// The command-line application of a domain, generic over its
/// configuration.
pub struct FabrykCli<C: ConfigProvider> {
    name: String,
    config: Arc<C>,
    version: String,
}

impl<C: ConfigProvider> FabrykCli<C> {
    /// The application's name.
    pub closed spec fn spec_name(&self) -> Seq<char> {
        self.name@
    }

    /// The application's version.
    pub closed spec fn spec_version(&self) -> Seq<char> {
        self.version@
    }

    /// The configuration.
    pub closed spec fn spec_config(&self) -> C {
        *self.config
    }

    /// An application with a name and a configuration, at this library's
    /// version.
    pub fn new(name: &str, config: C) -> (r: FabrykCli<C>)
        ensures
            r.spec_name() == name@,
            r.spec_config() == config,
            r.spec_version() == APP_VERSION@,
    {
        FabrykCli { name: name.to_owned(), config: Arc::new(config), version: APP_VERSION.to_owned() }
    }

    /// The same application with another version.
    pub fn with_version(self, version: &str) -> (r: FabrykCli<C>)
        ensures
            r.spec_name() == self.spec_name(),
            r.spec_config() == self.spec_config(),
            r.spec_version() == version@,
    {
        FabrykCli { version: version.to_owned(), ..self }
    }

    /// The configuration.
    pub fn config(&self) -> (r: &C)
        ensures
            *r == self.spec_config(),
    {
        &*self.config
    }

    /// The application's name.
    pub fn name(&self) -> (r: &str)
        ensures
            r@ == self.spec_name(),
    {
        self.name.as_str()
    }

    /// The application's version.
    pub fn version(&self) -> (r: &str)
        ensures
            r@ == self.spec_version(),
    {
        self.version.as_str()
    }
}

} // verus!
