//! Configuration of the command-line application, and the options of its
//! graph commands.

use vstd::prelude::*;
use crate::text::{concat, copy_opt};

verus! {

/// Default port of the server.
pub const DEFAULT_PORT: u16 = 3000;

/// Main configuration.
#[derive(Debug)]
pub struct FabrykConfig {
    /// Project name.
    pub project_name: String,
    /// Base path for all project data.
    pub base_path: Option<String>,
    /// Content settings.
    pub content: ContentConfig,
    /// Graph settings.
    pub graph: GraphConfig,
    /// Server settings.
    pub server: ServerConfig,
}

/// Content settings.
#[derive(Debug)]
pub struct ContentConfig {
    /// Path of the content directory.
    pub path: Option<String>,
}

/// Graph settings.
#[derive(Debug)]
pub struct GraphConfig {
    /// Output path for graph files.
    pub output_path: Option<String>,
}

/// Server settings.
#[derive(Debug)]
pub struct ServerConfig {
    /// Port to listen on.
    pub port: u16,
    /// Host address to bind to.
    pub host: String,
}

impl Default for ContentConfig {
    fn default() -> (r: ContentConfig)
        ensures
            r.path is None,
    {
        ContentConfig { path: None }
    }
}

impl Default for GraphConfig {
    fn default() -> (r: GraphConfig)
        ensures
            r.output_path is None,
    {
        GraphConfig { output_path: None }
    }
}

impl Default for ServerConfig {
    fn default() -> (r: ServerConfig)
        ensures
            r.port == DEFAULT_PORT,
            r.host@ == "127.0.0.1"@,
    {
        ServerConfig { port: DEFAULT_PORT, host: "127.0.0.1".to_owned() }
    }
}

impl Default for FabrykConfig {
    fn default() -> (r: FabrykConfig)
        ensures
            r.project_name@ == "fabryk"@,
            r.base_path is None,
            r.content.path is None,
            r.graph.output_path is None,
            r.server.port == DEFAULT_PORT,
            r.server.host@ == "127.0.0.1"@,
    {
        FabrykConfig {
            project_name: "fabryk".to_owned(),
            base_path: None,
            content: ContentConfig::default(),
            graph: GraphConfig::default(),
            server: ServerConfig::default(),
        }
    }
}

impl Clone for FabrykConfig {
    fn clone(&self) -> (r: Self)
        ensures
            r == *self,
    {
        FabrykConfig {
            project_name: self.project_name.clone(),
            base_path: copy_opt(&self.base_path),
            content: ContentConfig { path: copy_opt(&self.content.path) },
            graph: GraphConfig { output_path: copy_opt(&self.graph.output_path) },
            server: ServerConfig { port: self.server.port, host: self.server.host.clone() },
        }
    }
}

/// `base` and `part` joined by one `/`, unless `base` already ends in one.
pub open spec fn joined(base: Seq<char>, part: Seq<char>) -> Seq<char> {
    if base.len() > 0 && base.last() == '/' {
        base + part
    } else {
        base + "/"@ + part
    }
}

impl FabrykConfig {
    /// The project name.
    pub fn project_name(&self) -> (r: &str)
        ensures
            r@ == self.project_name@,
    {
        self.project_name.as_str()
    }

    /// The directory of a content type: the configured content path if
    /// set, else the type's directory under the base path; `None` when
    /// neither is configured (the caller then falls back to the working
    /// directory).
    pub fn content_path(&self, content_type: &str) -> (r: Option<String>)
        ensures
            self.content.path matches Some(p) ==> r matches Some(s) && s@ == p@,
            self.content.path is None ==> match self.base_path {
                Some(b) => r matches Some(s) && s@ == joined(b@, content_type@),
                None => r is None,
            },
    {
        match &self.content.path {
            Some(p) => Some(p.clone()),
            None => match &self.base_path {
                Some(b) => {
                    let bs = b.as_str();
                    let n = bs.unicode_len();
                    if n > 0 && bs.get_char(n - 1) == '/' {
                        Some(concat(bs, content_type))
                    } else {
                        proof {
                            reveal_strlit("/");
                        }
                        let with_slash = concat(bs, "/");
                        Some(concat(with_slash.as_str(), content_type))
                    }
                },
                None => None,
            },
        }
    }
}

/// Options of a graph build.
#[derive(Debug)]
pub struct BuildOptions {
    /// Output file path; the default location when absent.
    pub output: Option<String>,
    /// Show what would be built without writing.
    pub dry_run: bool,
}

/// Options of a graph query.
#[derive(Debug)]
pub struct QueryOptions {
    /// Node id to query.
    pub id: String,
    /// Kind of query: `related`, `prerequisites` or `path`.
    pub query_type: String,
    /// Target node of a path query.
    pub to: Option<String>,
}

} // verus!
